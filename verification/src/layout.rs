//! How the rows of a file fill its tensor.
//!
//! A file may write the matrix of one frequency on a single line or on one
//! line for each matrix row. The theorems of this module say that both
//! layouts parse to the same result, and what shape that result has.

use vstd::prelude::*;
use crate::arrays::shape_fits;
use crate::parser::{
    all_numbers, initial, opens_record, pairs, run_lines, step, tag_end, tag_frequencies,
    tag_network_data, tag_noise_frequencies, tag_ports, tag_reference, tag_version, take_row,
    ParserView, Phase,
};
use crate::result::ErrorKind;
use crate::text::{
    is_blank, last_index_of, lower_seq, starts_with, tokens, BANG, BRACKET, HASH,
};
use crate::touchstone::{lemma_done_is_final, lines_of, parse_outcome, rank_of};

verus! {

/// A physical line that is a row of `width` numbers and nothing else: it holds
/// no comment, and it starts neither a directive nor an option line.
pub open spec fn is_number_row(raw: Seq<u8>, width: nat) -> bool {
    let line = lower_seq(raw);
    &&& !is_blank(line)
    &&& last_index_of(line, BANG) == -1
    &&& line[0] != BRACKET
    &&& line[0] != HASH
    &&& tokens(line).len() == width
    &&& all_numbers(tokens(line))
}

/// The tokens of some lines, one line after the other.
pub open spec fn joined_tokens(lines: Seq<Seq<u8>>) -> Seq<Seq<u8>>
    decreases lines.len(),
{
    if lines.len() == 0 {
        Seq::empty()
    } else {
        joined_tokens(lines.drop_last()) + tokens(lower_seq(lines.last()))
    }
}

/// One frequency record written on `rank` lines: the first line holds the
/// frequency and the first matrix row, each other line one more matrix row.
pub open spec fn is_split_record(record: Seq<Seq<u8>>, rank: nat) -> bool {
    &&& record.len() == rank
    &&& forall|j: int|
        0 <= j < rank ==> is_number_row(
            #[trigger] record[j],
            if j == 0 {
                2 * rank + 1
            } else {
                2 * rank
            },
        )
}

/// A parser that reads rows: it is not done, and it awaits no reference line.
pub open spec fn reads_rows(st: ParserView) -> bool {
    st.phase != Phase::Done && !st.awaiting_reference
}

/// Two states that differ in nothing but their frequencies and values.
pub open spec fn same_but_data(a: ParserView, b: ParserView) -> bool {
    a == (ParserView { freqs: a.freqs, values: a.values, ..b })
}

/// A row of numbers is read as a row, before the option line and after it.
pub proof fn lemma_number_row_step(st: ParserView, raw: Seq<u8>, width: nat)
    requires
        reads_rows(st),
        is_number_row(raw, width),
    ensures
        step(st, raw) == take_row(st, tokens(lower_seq(raw))),
{
    let line = lower_seq(raw);
    reveal_strlit("[version]");
    reveal_strlit("[reference]");
    reveal_strlit("[number of ports]");
    reveal_strlit("[number of frequencies]");
    reveal_strlit("[number of noise frequencies]");
    reveal_strlit("[network data]");
    reveal_strlit("[end]");
    assert(line.len() > 0);
    assert(tag_version()[0] == BRACKET);
    assert(tag_reference()[0] == BRACKET);
    assert(tag_ports()[0] == BRACKET);
    assert(tag_frequencies()[0] == BRACKET);
    assert(tag_noise_frequencies()[0] == BRACKET);
    assert(tag_network_data()[0] == BRACKET);
    assert(tag_end()[0] == BRACKET);
    assert forall|tag: Seq<u8>| tag.len() > 0 && tag[0] == BRACKET implies !starts_with(line, tag) by {
        if starts_with(line, tag) {
            assert(line.subrange(0, tag.len() as int)[0] == tag[0]);
        }
    }
}

/// Pairing up distributes over a concatenation whose first part pairs up.
pub proof fn lemma_pairs_concat(a: Seq<Seq<u8>>, b: Seq<Seq<u8>>)
    requires
        a.len() % 2 == 0,
    ensures
        pairs(a + b) == pairs(a) + pairs(b),
{
    let half = a.len() / 2;
    assert(pairs(a + b).len() == pairs(a).len() + pairs(b).len());
    assert forall|i: int| 0 <= i < pairs(a + b).len() implies pairs(a + b)[i] == (pairs(a) + pairs(
        b,
    ))[i] by {
        if i < half {
            assert((a + b)[2 * i] == a[2 * i]);
            assert((a + b)[2 * i + 1] == a[2 * i + 1]);
        } else {
            assert((a + b)[2 * i] == b[2 * (i - half)]);
            assert((a + b)[2 * i + 1] == b[2 * (i - half) + 1]);
        }
    }
    assert(pairs(a + b) =~= pairs(a) + pairs(b));
}

/// Reading lines one after the other is reading the first lines and then,
/// from the state that they leave, the others.
pub proof fn lemma_run_concat(st: ParserView, a: Seq<Seq<u8>>, b: Seq<Seq<u8>>)
    ensures
        run_lines(st, a + b) == (match run_lines(st, a) {
            Ok(mid) => run_lines(mid, b),
            Err(e) => Err(e),
        }),
    decreases a.len(),
{
    if a.len() == 0 {
        assert(a + b =~= b);
    } else {
        assert((a + b)[0] == a[0]);
        assert((a + b).drop_first() =~= a.drop_first() + b);
        match step(st, a[0]) {
            Ok(next) => {
                lemma_run_concat(next, a.drop_first(), b);
            },
            Err(_) => {},
        }
    }
}

/// Reading a single line is one step.
pub proof fn lemma_run_one(st: ParserView, line: Seq<u8>)
    ensures
        run_lines(st, seq![line]) == step(st, line),
{
    assert(seq![line].drop_first() =~= Seq::<Seq<u8>>::empty());
    match step(st, line) {
        Ok(next) => {
            assert(run_lines(next, Seq::<Seq<u8>>::empty()) == Ok::<ParserView, ErrorKind>(next));
        },
        Err(_) => {},
    }
}

/// A row of twice the rank is never taken for the start of a record.
pub proof fn lemma_matrix_row_continues(rank: nat)
    ensures
        !opens_record(2 * rank, rank),
{
    assert(2 * rank * rank == 2 * (rank * rank)) by (nonlinear_arith);
}

/// The first `upto` lines of a split record leave the state that the record
/// written on one line would leave, as far as they go.
proof fn lemma_split_prefix(st: ParserView, record: Seq<Seq<u8>>, upto: int)
    requires
        reads_rows(st),
        is_split_record(record, st.rank),
        1 <= upto <= record.len(),
    ensures
        joined_tokens(record.subrange(0, upto)).len() == 1 + 2 * st.rank * upto,
        all_numbers(joined_tokens(record.subrange(0, upto))),
        joined_tokens(record.subrange(0, upto))[0] == tokens(lower_seq(record[0]))[0],
        run_lines(st, record.subrange(0, upto)) == Ok::<ParserView, ErrorKind>(
            ParserView {
                freqs: st.freqs.push(tokens(lower_seq(record[0]))[0]),
                values: st.values + pairs(
                    joined_tokens(record.subrange(0, upto)).subrange(
                        1,
                        1 + 2 * st.rank * upto,
                    ),
                ),
                ..st
            },
        ),
    decreases upto,
{
    let rank = st.rank;
    let part = record.subrange(0, upto);
    let row = tokens(lower_seq(record[upto - 1]));
    assert(part.last() == record[upto - 1]);
    assert(part.drop_last() =~= record.subrange(0, upto - 1));
    assert(2 * rank * upto == 2 * rank * (upto - 1) + 2 * rank) by (nonlinear_arith);
    assert(2 * rank * (upto - 1) == 0 <==> upto == 1 || rank == 0) by (nonlinear_arith)
        requires
            upto >= 1,
    ;
    if upto == 1 {
        assert(joined_tokens(record.subrange(0, 0)) =~= Seq::<Seq<u8>>::empty());
        assert(joined_tokens(part) =~= row);
        assert(part =~= seq![record[0]]);
        lemma_run_one(st, record[0]);
        lemma_number_row_step(st, record[0], 2 * rank + 1);
        assert(row.subrange(1, row.len() as int) =~= row.subrange(1, 1 + 2 * rank * upto));
    } else {
        lemma_split_prefix(st, record, upto - 1);
        let before = joined_tokens(record.subrange(0, upto - 1));
        let mid = ParserView {
            freqs: st.freqs.push(tokens(lower_seq(record[0]))[0]),
            values: st.values + pairs(before.subrange(1, 1 + 2 * rank * (upto - 1))),
            ..st
        };
        assert(joined_tokens(part) == before + row);
        assert(part =~= record.subrange(0, upto - 1) + seq![record[upto - 1]]);
        lemma_run_concat(st, record.subrange(0, upto - 1), seq![record[upto - 1]]);
        lemma_run_one(mid, record[upto - 1]);
        lemma_number_row_step(mid, record[upto - 1], 2 * rank);
        lemma_matrix_row_continues(rank);
        let data = before.subrange(1, 1 + 2 * rank * (upto - 1));
        assert(data.len() % 2 == 0) by (nonlinear_arith)
            requires
                data.len() == 2 * rank * (upto - 1),
        {
            assert(2 * rank * (upto - 1) == 2 * (rank * (upto - 1)));
        }
        lemma_pairs_concat(data, row);
        assert((before + row).subrange(1, 1 + 2 * rank * upto) =~= data + row);
        assert(mid.values + pairs(row) =~= st.values + pairs(data + row));
    }
}

/// A record written on `rank` lines is read as the same record written on
/// one line.
pub proof fn lemma_split_record_is_flat(st: ParserView, record: Seq<Seq<u8>>, flat: Seq<u8>)
    requires
        reads_rows(st),
        st.rank >= 1,
        is_split_record(record, st.rank),
        is_number_row(flat, 2 * st.rank * st.rank + 1),
        tokens(lower_seq(flat)) == joined_tokens(record),
    ensures
        run_lines(st, record) == step(st, flat),
        run_lines(st, record) is Ok,
        reads_rows(run_lines(st, record)->Ok_0),
        same_but_data(run_lines(st, record)->Ok_0, st),
{
    let rank = st.rank;
    lemma_split_prefix(st, record, rank as int);
    assert(record.subrange(0, rank as int) =~= record);
    lemma_number_row_step(st, flat, 2 * rank * rank + 1);
    let all = joined_tokens(record);
    assert(all.subrange(1, all.len() as int) =~= all.subrange(1, (1 + 2 * rank * rank) as int));
    assert((2 * rank * rank) % 2 == 0) by (nonlinear_arith)
    {
        assert(2 * rank * rank == 2 * (rank * rank));
    }
}

/// Split or flat, the result is the same: a run of frequency records, each
/// written on `rank` lines, is read as the run of the same records, each
/// written on one line.
pub proof fn lemma_split_equals_flat(
    st: ParserView,
    records: Seq<Seq<Seq<u8>>>,
    flat: Seq<Seq<u8>>,
)
    requires
        reads_rows(st),
        st.rank >= 1,
        records.len() == flat.len(),
        forall|i: int|
            0 <= i < flat.len() ==> is_split_record(#[trigger] records[i], st.rank),
        forall|i: int|
            0 <= i < flat.len() ==> is_number_row(#[trigger] flat[i], 2 * st.rank * st.rank + 1),
        forall|i: int|
            0 <= i < flat.len() ==> tokens(lower_seq(#[trigger] flat[i])) == joined_tokens(
                records[i],
            ),
    ensures
        run_lines(st, records.flatten()) == run_lines(st, flat),
    decreases flat.len(),
{
    if flat.len() > 0 {
        let first = records[0];
        let more = records.drop_first();
        assert(records.flatten() == first + more.flatten());
        lemma_run_concat(st, first, more.flatten());
        lemma_split_record_is_flat(st, first, flat[0]);
        let next = run_lines(st, first)->Ok_0;
        assert forall|i: int| 0 <= i < flat.drop_first().len() implies is_split_record(
            #[trigger] more[i],
            next.rank,
        ) by {
            assert(more[i] == records[i + 1]);
        }
        assert forall|i: int| 0 <= i < flat.drop_first().len() implies is_number_row(
            #[trigger] flat.drop_first()[i],
            2 * next.rank * next.rank + 1,
        ) by {
            assert(flat.drop_first()[i] == flat[i + 1]);
        }
        assert forall|i: int| 0 <= i < flat.drop_first().len() implies tokens(
            lower_seq(#[trigger] flat.drop_first()[i]),
        ) == joined_tokens(more[i]) by {
            assert(flat.drop_first()[i] == flat[i + 1]);
            assert(more[i] == records[i + 1]);
        }
        lemma_split_equals_flat(next, more, flat.drop_first());
    } else {
        assert(records.flatten() =~= Seq::<Seq<u8>>::empty());
    }
}

/// Two files that hold the same header and the same records, the one with
/// every record on `rank` lines and the other with every record on one line,
/// parse to the same result.
pub proof fn lemma_split_file_equals_flat_file(
    filename: Seq<u8>,
    split: Seq<u8>,
    flat: Seq<u8>,
    head: Seq<Seq<u8>>,
    records: Seq<Seq<Seq<u8>>>,
    rows: Seq<Seq<u8>>,
)
    requires
        rank_of(filename) is Ok,
        rank_of(filename)->Ok_0 >= 1,
        lines_of(split) == head + records.flatten(),
        lines_of(flat) == head + rows,
        match run_lines(initial(rank_of(filename)->Ok_0 as nat), head) {
            Ok(st) => !st.awaiting_reference,
            Err(_) => true,
        },
        records.len() == rows.len(),
        forall|i: int|
            0 <= i < rows.len() ==> is_split_record(
                #[trigger] records[i],
                rank_of(filename)->Ok_0 as nat,
            ),
        forall|i: int|
            0 <= i < rows.len() ==> is_number_row(
                #[trigger] rows[i],
                2 * (rank_of(filename)->Ok_0 as nat) * (rank_of(filename)->Ok_0 as nat) + 1,
            ),
        forall|i: int|
            0 <= i < rows.len() ==> tokens(lower_seq(#[trigger] rows[i])) == joined_tokens(
                records[i],
            ),
    ensures
        parse_outcome(filename, split) == parse_outcome(filename, flat),
{
    let rank = rank_of(filename)->Ok_0 as nat;
    let start = initial(rank);
    lemma_run_concat(start, head, records.flatten());
    lemma_run_concat(start, head, rows);
    lemma_head_keeps_rank(start, head);
    match run_lines(start, head) {
        Ok(st) => {
            if st.phase == Phase::Done {
                lemma_done_is_final(st, records.flatten());
                lemma_done_is_final(st, rows);
            } else {
                lemma_split_equals_flat(st, records, rows);
            }
        },
        Err(_) => {},
    }
}

/// No line changes the rank of a parser.
pub proof fn lemma_step_keeps_rank(st: ParserView, raw: Seq<u8>)
    ensures
        step(st, raw) is Ok ==> step(st, raw)->Ok_0.rank == st.rank,
{
}

/// No run of lines changes the rank of a parser.
pub proof fn lemma_head_keeps_rank(st: ParserView, lines: Seq<Seq<u8>>)
    ensures
        run_lines(st, lines) is Ok ==> run_lines(st, lines)->Ok_0.rank == st.rank,
    decreases lines.len(),
{
    if lines.len() > 0 {
        lemma_step_keeps_rank(st, lines[0]);
        match step(st, lines[0]) {
            Ok(next) => {
                lemma_head_keeps_rank(next, lines.drop_first());
            },
            Err(_) => {},
        }
    }
}

/// Whatever a file holds, a parse that succeeds gives one `rank` by `rank`
/// matrix for each frequency, with the rank that the name of the file
/// declares: the values are never reshaped into anything else.
pub proof fn lemma_outcome_is_well_shaped(filename: Seq<u8>, content: Seq<u8>)
    requires
        parse_outcome(filename, content) is Ok,
    ensures
        rank_of(filename) is Ok,
        parse_outcome(filename, content)->Ok_0.rank == rank_of(filename)->Ok_0,
        parse_outcome(filename, content)->Ok_0.shape == (
            parse_outcome(filename, content)->Ok_0.freqs.len(),
            parse_outcome(filename, content)->Ok_0.rank,
            parse_outcome(filename, content)->Ok_0.rank,
        ),
        parse_outcome(filename, content)->Ok_0.cells.len() == parse_outcome(
            filename,
            content,
        )->Ok_0.freqs.len() * parse_outcome(filename, content)->Ok_0.rank * parse_outcome(
            filename,
            content,
        )->Ok_0.rank,
{
    lemma_head_keeps_rank(initial(rank_of(filename)->Ok_0 as nat), lines_of(content));
}

/// Rows that each hold a frequency and a whole matrix give one frequency and
/// one matrix each, and change nothing else.
pub proof fn lemma_flat_rows(st: ParserView, rows: Seq<Seq<u8>>)
    requires
        reads_rows(st),
        forall|i: int|
            0 <= i < rows.len() ==> is_number_row(#[trigger] rows[i], 2 * st.rank * st.rank + 1),
    ensures
        run_lines(st, rows) is Ok,
        same_but_data(run_lines(st, rows)->Ok_0, st),
        run_lines(st, rows)->Ok_0.freqs.len() == st.freqs.len() + rows.len(),
        run_lines(st, rows)->Ok_0.values.len() == st.values.len() + rows.len() * st.rank * st.rank,
    decreases rows.len(),
{
    let rank = st.rank;
    if rows.len() > 0 {
        lemma_number_row_step(st, rows[0], 2 * rank * rank + 1);
        assert((2 * rank * rank) % 2 == 0) by (nonlinear_arith)
        {
            assert(2 * rank * rank == 2 * (rank * rank));
        }
        let next = step(st, rows[0])->Ok_0;
        assert(next.values.len() == st.values.len() + rank * rank) by (nonlinear_arith)
            requires
                next.values.len() == st.values.len() + (2 * rank * rank) / 2,
        {
            assert(2 * rank * rank == 2 * (rank * rank));
        }
        assert forall|i: int| 0 <= i < rows.drop_first().len() implies is_number_row(
            #[trigger] rows.drop_first()[i],
            2 * next.rank * next.rank + 1,
        ) by {
            assert(rows.drop_first()[i] == rows[i + 1]);
        }
        lemma_flat_rows(next, rows.drop_first());
        assert(rows.len() * rank * rank == rank * rank + (rows.len() - 1) * rank * rank)
            by (nonlinear_arith);
    } else {
        assert(rows.len() * rank * rank == 0) by (nonlinear_arith)
            requires
                rows.len() == 0,
        ;
    }
}

/// A file that holds a header without rows and then `n` rows, each a
/// frequency and a whole `rank` by `rank` matrix, parses to a tensor of shape
/// `(n, rank, rank)`.
pub proof fn lemma_table_shape(
    filename: Seq<u8>,
    content: Seq<u8>,
    head: Seq<Seq<u8>>,
    rows: Seq<Seq<u8>>,
)
    requires
        rank_of(filename) is Ok,
        lines_of(content) == head + rows,
        run_lines(initial(rank_of(filename)->Ok_0 as nat), head) is Ok,
        reads_rows(run_lines(initial(rank_of(filename)->Ok_0 as nat), head)->Ok_0),
        run_lines(initial(rank_of(filename)->Ok_0 as nat), head)->Ok_0.freqs.len() == 0,
        run_lines(initial(rank_of(filename)->Ok_0 as nat), head)->Ok_0.values.len() == 0,
        forall|i: int|
            0 <= i < rows.len() ==> is_number_row(
                #[trigger] rows[i],
                2 * (rank_of(filename)->Ok_0 as nat) * (rank_of(filename)->Ok_0 as nat) + 1,
            ),
        shape_fits(rows.len(), rank_of(filename)->Ok_0 as nat, rank_of(filename)->Ok_0 as nat),
    ensures
        parse_outcome(filename, content) is Ok,
        parse_outcome(filename, content)->Ok_0.shape == (
            rows.len(),
            rank_of(filename)->Ok_0 as nat,
            rank_of(filename)->Ok_0 as nat,
        ),
        parse_outcome(filename, content)->Ok_0.freqs.len() == rows.len(),
{
    let rank = rank_of(filename)->Ok_0 as nat;
    lemma_run_concat(initial(rank), head, rows);
    lemma_head_keeps_rank(initial(rank), head);
    lemma_flat_rows(run_lines(initial(rank), head)->Ok_0, rows);
}

/// A file of `n` rows, each a frequency and a whole `rank` by `rank` matrix,
/// parses to a tensor of shape `(n, rank, rank)`.
pub proof fn lemma_flat_file_shape(filename: Seq<u8>, content: Seq<u8>)
    requires
        rank_of(filename) is Ok,
        forall|i: int|
            0 <= i < lines_of(content).len() ==> is_number_row(
                #[trigger] lines_of(content)[i],
                2 * (rank_of(filename)->Ok_0 as nat) * (rank_of(filename)->Ok_0 as nat) + 1,
            ),
        shape_fits(
            lines_of(content).len(),
            rank_of(filename)->Ok_0 as nat,
            rank_of(filename)->Ok_0 as nat,
        ),
    ensures
        parse_outcome(filename, content) is Ok,
        parse_outcome(filename, content)->Ok_0.shape == (
            lines_of(content).len(),
            rank_of(filename)->Ok_0 as nat,
            rank_of(filename)->Ok_0 as nat,
        ),
        parse_outcome(filename, content)->Ok_0.freqs.len() == lines_of(content).len(),
{
    let none = Seq::<Seq<u8>>::empty();
    assert(none + lines_of(content) =~= lines_of(content));
    lemma_table_shape(filename, content, none, lines_of(content));
}

/// A file of `n` rows of `2 * rank + 1` numbers parses to a tensor of shape
/// `(n, rank, rank)`, where such rows can fill one: in a file without rows,
/// and where the rank is at most one.
pub proof fn lemma_rows_give_shape(filename: Seq<u8>, content: Seq<u8>)
    requires
        rank_of(filename) is Ok,
        forall|i: int|
            0 <= i < lines_of(content).len() ==> is_number_row(
                #[trigger] lines_of(content)[i],
                2 * (rank_of(filename)->Ok_0 as nat) + 1,
            ),
        lines_of(content).len() == 0 || rank_of(filename)->Ok_0 <= 1,
        shape_fits(
            lines_of(content).len(),
            rank_of(filename)->Ok_0 as nat,
            rank_of(filename)->Ok_0 as nat,
        ),
    ensures
        parse_outcome(filename, content) is Ok,
        parse_outcome(filename, content)->Ok_0.shape == (
            lines_of(content).len(),
            rank_of(filename)->Ok_0 as nat,
            rank_of(filename)->Ok_0 as nat,
        ),
        parse_outcome(filename, content)->Ok_0.freqs.len() == lines_of(content).len(),
{
    let rank = rank_of(filename)->Ok_0 as nat;
    if rank <= 1 {
        assert(2 * rank * rank + 1 == 2 * rank + 1) by (nonlinear_arith)
            requires
                rank <= 1,
        ;
    }
    lemma_flat_file_shape(filename, content);
}

} // verus!
