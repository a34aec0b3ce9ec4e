//! Extraction of alert summaries from a CIPP alert e-mail body.
//!
//! The body is an HTML fragment holding exactly one table of a fixed shape
//! (columns: message, source system, tenant, username, severity). The first
//! table row is the header; every later row yields either one summary string
//! or one row-level diagnostic. The row and cell boundaries are the literal
//! markers `<tr>`/`</tr>` and `<td>`/`</td>`, matched over the shortest span,
//! in document order.

use vstd::prelude::*;
use crate::text::{
    chars_of, extend_chars, find_pat, find_pattern, lemma_find_pat_characterizes, match_at,
    matches_at, passes_all, passes_exclusions, string_of, string_views, subvec, to_char_vecs,
    views,
};

verus! {

/// The literal four-character escape text for a carriage-return/line-feed
/// pair, as the body carries it: `\r\n` spelled out, not control characters.
pub open spec fn crlf_escape() -> Seq<char> {
    seq!['\\', 'r', '\\', 'n']
}

/// Row-opening marker.
pub open spec fn row_open() -> Seq<char> {
    seq!['<', 't', 'r', '>']
}

/// Row-closing marker.
pub open spec fn row_close() -> Seq<char> {
    seq!['<', '/', 't', 'r', '>']
}

/// Cell-opening marker.
pub open spec fn cell_open() -> Seq<char> {
    seq!['<', 't', 'd', '>']
}

/// Cell-closing marker.
pub open spec fn cell_close() -> Seq<char> {
    seq!['<', '/', 't', 'd', '>']
}

/// The fixed administrative-label terms: a field containing any of them is
/// noise from the table schema, not payload data.
pub open spec fn admin_field_terms() -> Seq<Seq<char>> {
    seq![
        seq!['C', 'I', 'P', 'P'],
        seq!['A', 'l', 'e', 'r', 't', 's'],
        seq!['A', 'l', 'e', 'r', 't'],
    ]
}

/// `s` with every occurrence of the literal `\r\n` escape text removed,
/// scanning left to right from position `from`.
pub open spec fn strip_crlf_from(s: Seq<char>, from: nat) -> Seq<char>
    decreases s.len() - from when from <= s.len()
{
    if from >= s.len() {
        seq![]
    } else if matches_at(s, crlf_escape(), from as int) {
        strip_crlf_from(s, (from + 4) as nat)
    } else {
        seq![s[from as int]] + strip_crlf_from(s, (from + 1) as nat)
    }
}

/// `s` with every occurrence of the cell markers `<td>` and `</td>` removed,
/// scanning left to right from position `from`.
pub open spec fn strip_cell_markers_from(s: Seq<char>, from: nat) -> Seq<char>
    decreases s.len() - from when from <= s.len()
{
    if from >= s.len() {
        seq![]
    } else if matches_at(s, cell_open(), from as int) {
        strip_cell_markers_from(s, (from + 4) as nat)
    } else if matches_at(s, cell_close(), from as int) {
        strip_cell_markers_from(s, (from + 5) as nat)
    } else {
        seq![s[from as int]] + strip_cell_markers_from(s, (from + 1) as nat)
    }
}

/// The delimited fragments of `s` at or after `from`: each fragment runs from
/// an occurrence of `open` to the end of the next occurrence of `close`
/// (the shortest such span), in document order, without overlap. The bounds
/// test restates what holds of every `find_pat` result; it keeps the
/// recursion visibly bounded.
pub open spec fn spans_from(
    s: Seq<char>,
    open: Seq<char>,
    close: Seq<char>,
    from: nat,
) -> Seq<Seq<char>>
    decreases s.len() + 1 - from,
{
    match find_pat(s, open, from) {
        None => seq![],
        Some(i) => match find_pat(s, close, (i + open.len()) as nat) {
            None => seq![],
            Some(j) => {
                let end = (j + close.len()) as nat;
                if from < end && end <= s.len() {
                    seq![s.subrange(i as int, end as int)] + spans_from(s, open, close, end)
                } else {
                    seq![]
                }
            },
        },
    }
}

/// The characters `\r\n` as a vector.
fn crlf_escape_chars() -> (r: Vec<char>)
    ensures
        r@ == crlf_escape(),
{
    let mut v: Vec<char> = Vec::new();
    v.push('\\');
    v.push('r');
    v.push('\\');
    v.push('n');
    proof {
        assert(v@ =~= crlf_escape());
    }
    v
}

/// A marker `<tr>`, `</tr>`, `<td>` or `</td>` as a vector: `tag_close`
/// selects the closing form, `cell` selects the cell markers.
fn marker_chars(cell: bool, tag_close: bool) -> (r: Vec<char>)
    ensures
        cell && !tag_close ==> r@ == cell_open(),
        cell && tag_close ==> r@ == cell_close(),
        !cell && !tag_close ==> r@ == row_open(),
        !cell && tag_close ==> r@ == row_close(),
{
    let mut v: Vec<char> = Vec::new();
    v.push('<');
    if tag_close {
        v.push('/');
    }
    v.push('t');
    if cell {
        v.push('d');
    } else {
        v.push('r');
    }
    v.push('>');
    proof {
        if cell && !tag_close {
            assert(v@ =~= cell_open());
        }
        if cell && tag_close {
            assert(v@ =~= cell_close());
        }
        if !cell && !tag_close {
            assert(v@ =~= row_open());
        }
        if !cell && tag_close {
            assert(v@ =~= row_close());
        }
    }
    v
}

/// Removes every literal `\r\n` escape from `s`.
fn strip_crlf(s: &Vec<char>) -> (r: Vec<char>)
    ensures
        r@ == strip_crlf_from(s@, 0),
{
    let pat = crlf_escape_chars();
    let mut r: Vec<char> = Vec::new();
    let mut pos: usize = 0;
    while pos < s.len()
        invariant
            pos <= s@.len(),
            pat@ == crlf_escape(),
            strip_crlf_from(s@, 0) == r@ + strip_crlf_from(s@, pos as nat),
        decreases s@.len() - pos,
    {
        if s.len() - pos >= 4 && match_at(s, &pat, pos) {
            pos += 4;
        } else {
            let ghost prev = r@;
            r.push(s[pos]);
            pos += 1;
            proof {
                assert(r@ =~= prev + seq![s@[pos - 1]]);
                assert(prev + (seq![s@[pos - 1]] + strip_crlf_from(s@, pos as nat)) =~= (prev
                    + seq![s@[pos - 1]]) + strip_crlf_from(s@, pos as nat));
            }
        }
    }
    proof {
        assert(r@ + strip_crlf_from(s@, pos as nat) =~= r@);
    }
    r
}

/// Removes every `<td>` and `</td>` marker from `s`.
fn strip_cell_markers(s: &Vec<char>) -> (r: Vec<char>)
    ensures
        r@ == strip_cell_markers_from(s@, 0),
{
    let open = marker_chars(true, false);
    let close = marker_chars(true, true);
    let mut r: Vec<char> = Vec::new();
    let mut pos: usize = 0;
    while pos < s.len()
        invariant
            pos <= s@.len(),
            open@ == cell_open(),
            close@ == cell_close(),
            strip_cell_markers_from(s@, 0) == r@ + strip_cell_markers_from(s@, pos as nat),
        decreases s@.len() - pos,
    {
        if s.len() - pos >= 4 && match_at(s, &open, pos) {
            pos += 4;
        } else if s.len() - pos >= 5 && match_at(s, &close, pos) {
            pos += 5;
        } else {
            let ghost prev = r@;
            r.push(s[pos]);
            pos += 1;
            proof {
                assert(r@ =~= prev + seq![s@[pos - 1]]);
                assert(prev + (seq![s@[pos - 1]] + strip_cell_markers_from(s@, pos as nat))
                    =~= (prev + seq![s@[pos - 1]]) + strip_cell_markers_from(s@, pos as nat));
            }
        }
    }
    proof {
        assert(r@ + strip_cell_markers_from(s@, pos as nat) =~= r@);
    }
    r
}

/// Collects the delimited fragments of `s` between `open` and `close`.
fn extract_spans(s: &Vec<char>, open: &Vec<char>, close: &Vec<char>) -> (r: Vec<Vec<char>>)
    requires
        open@.len() > 0,
        close@.len() > 0,
    ensures
        views(r@) == spans_from(s@, open@, close@, 0),
{
    let slen = s.len();
    let mut r: Vec<Vec<char>> = Vec::new();
    let mut pos: usize = 0;
    proof {
        assert(views(r@) + spans_from(s@, open@, close@, 0) =~= spans_from(
            s@,
            open@,
            close@,
            0,
        ));
    }
    loop
        invariant
            open@.len() > 0,
            close@.len() > 0,
            slen == s@.len(),
            pos <= s@.len(),
            spans_from(s@, open@, close@, 0) == views(r@) + spans_from(
                s@,
                open@,
                close@,
                pos as nat,
            ),
        ensures
            spans_from(s@, open@, close@, 0) == views(r@),
        decreases s@.len() + 1 - pos,
    {
        let found = find_pattern(s, open, pos);
        match found {
            None => {
                proof {
                    assert(spans_from(s@, open@, close@, pos as nat) =~= Seq::<Seq<char>>::empty());
                    assert(views(r@) + Seq::<Seq<char>>::empty() =~= views(r@));
                }
                break;
            },
            Some(i) => {
                proof {
                    lemma_find_pat_characterizes(s@, open@, pos as nat);
                }
                let after_open = i + open.len();
                let found_close = find_pattern(s, close, after_open);
                match found_close {
                    None => {
                        proof {
                            assert(spans_from(s@, open@, close@, pos as nat)
                                =~= Seq::<Seq<char>>::empty());
                            assert(views(r@) + Seq::<Seq<char>>::empty() =~= views(r@));
                        }
                        break;
                    },
                    Some(j) => {
                        proof {
                            lemma_find_pat_characterizes(s@, close@, after_open as nat);
                        }
                        let end = j + close.len();
                        let span = subvec(s, i, end);
                        let ghost prev = views(r@);
                        r.push(span);
                        proof {
                            assert(views(r@) =~= prev + seq![span@]);
                            assert(prev + (seq![span@] + spans_from(s@, open@, close@, end as nat))
                                =~= (prev + seq![span@]) + spans_from(
                                s@,
                                open@,
                                close@,
                                end as nat,
                            ));
                        }
                        pos = end;
                    },
                }
            },
        }
    }
    r
}

/// The body after normalization: every literal `\r\n` escape removed.
pub open spec fn normalized_body(body: Seq<char>) -> Seq<char> {
    strip_crlf_from(body, 0)
}

/// Every table row of the body, header included, in document order.
pub open spec fn table_rows(body: Seq<char>) -> Seq<Seq<char>> {
    spans_from(normalized_body(body), row_open(), row_close(), 0)
}

/// The data rows of the body: every table row but the first (the header).
/// A table with no rows, or only the header, has no data rows.
pub open spec fn data_rows(body: Seq<char>) -> Seq<Seq<char>> {
    let all = table_rows(body);
    if all.len() == 0 {
        all
    } else {
        all.skip(1)
    }
}

/// The text of every cell of a row, in order, with the cell markers removed.
pub open spec fn cell_texts(row: Seq<char>) -> Seq<Seq<char>> {
    spans_from(row, cell_open(), cell_close(), 0).map_values(
        |c: Seq<char>| strip_cell_markers_from(c, 0),
    )
}

/// A field survives when it contains none of the administrative-label terms.
pub open spec fn field_is_useful(field: Seq<char>) -> bool {
    passes_exclusions(field, admin_field_terms())
}

/// The surviving members of a field list, in order.
pub open spec fn useful_of(fields: Seq<Seq<char>>) -> Seq<Seq<char>>
    decreases fields.len(),
{
    if fields.len() == 0 {
        seq![]
    } else if field_is_useful(fields[0]) {
        seq![fields[0]] + useful_of(fields.skip(1))
    } else {
        useful_of(fields.skip(1))
    }
}

/// The payload fields of a row: its cell texts with the administrative
/// labels dropped.
pub open spec fn useful_fields(row: Seq<char>) -> Seq<Seq<char>> {
    useful_of(cell_texts(row))
}

/// The summary emitted for a well-formed row: `message (tenant)`.
pub open spec fn message_text(message: Seq<char>, tenant: Seq<char>) -> Seq<char> {
    message + seq![' ', '('] + tenant + seq![')']
}

/// A field in quotes, as the row diagnostics render it.
pub open spec fn quoted(field: Seq<char>) -> Seq<char> {
    seq!['"'] + field + seq!['"']
}

/// The quoted fields after the first, each preceded by a comma separator.
pub open spec fn rest_joined(fields: Seq<Seq<char>>) -> Seq<char>
    decreases fields.len(),
{
    if fields.len() == 0 {
        seq![]
    } else {
        seq![',', ' '] + quoted(fields[0]) + rest_joined(fields.skip(1))
    }
}

/// All fields quoted and joined with comma separators.
pub open spec fn joined_fields(fields: Seq<Seq<char>>) -> Seq<char> {
    if fields.len() == 0 {
        seq![]
    } else {
        quoted(fields[0]) + rest_joined(fields.skip(1))
    }
}

/// The fixed wording of a row-level diagnostic.
pub open spec fn row_error_prefix() -> Seq<char> {
    "Something is wrong with data extracted from row, expected exactly 2 useful fields, skipping this one in output: "@
}

/// The diagnostic emitted for a row whose payload is not exactly two fields:
/// the fixed wording followed by the surviving field list.
pub open spec fn row_error_text(fields: Seq<Seq<char>>) -> Seq<char> {
    row_error_prefix() + seq!['['] + joined_fields(fields) + seq![']']
}

/// Characters that carry structural meaning in a match pattern. A
/// caller-supplied exclusion holding one cannot be taken as plain text and
/// is rejected when the matching rule is constructed; ordinary punctuation
/// such as `.` passes.
pub open spec fn is_special_char(c: char) -> bool {
    c == '\\' || c == '(' || c == ')' || c == '[' || c == ']' || c == '{' || c == '}' || c == '|'
        || c == '*' || c == '+' || c == '?' || c == '^' || c == '$'
}

/// True when some character of `s` is a pattern metacharacter.
pub open spec fn has_special_char(s: Seq<char>) -> bool {
    exists|i: int| 0 <= i < s.len() && is_special_char(s[i])
}

/// True when the exclusion list cannot form a literal matching rule.
pub open spec fn exclusions_rejected(exclusions: Seq<Seq<char>>) -> bool {
    exists|k: int| 0 <= k < exclusions.len() && has_special_char(exclusions[k])
}

/// The fixed wording of the construction error.
pub open spec fn construction_error_text() -> Seq<char> {
    "Invalid input for generating dynamic matching rule, domain exclusions must contain literal text only"@
}

/// The two output lists for a sequence of data rows: a summary for every
/// eligible row with exactly two payload fields, a diagnostic for every
/// other eligible row, both in row order. Excluded rows contribute to
/// neither list.
pub open spec fn alert_outputs(
    rows: Seq<Seq<char>>,
    exclusions: Seq<Seq<char>>,
) -> (Seq<Seq<char>>, Seq<Seq<char>>)
    decreases rows.len(),
{
    if rows.len() == 0 {
        (seq![], seq![])
    } else {
        let rest = alert_outputs(rows.skip(1), exclusions);
        if passes_exclusions(rows[0], exclusions) {
            let fields = useful_fields(rows[0]);
            if fields.len() == 2 {
                (seq![message_text(fields[0], fields[1])] + rest.0, rest.1)
            } else {
                (rest.0, seq![row_error_text(fields)] + rest.1)
            }
        } else {
            rest
        }
    }
}

/// The summaries the parse owes for a body and an exclusion list.
pub open spec fn alert_messages(body: Seq<char>, exclusions: Seq<Seq<char>>) -> Seq<Seq<char>> {
    alert_outputs(data_rows(body), exclusions).0
}

/// The row diagnostics the parse owes for a body and an exclusion list.
pub open spec fn alert_row_errors(body: Seq<char>, exclusions: Seq<Seq<char>>) -> Seq<Seq<char>> {
    alert_outputs(data_rows(body), exclusions).1
}

/// One step of `rest_joined` on a list with a known first element.
proof fn lemma_rest_joined_unfold(x: Seq<char>, rest: Seq<Seq<char>>)
    ensures
        rest_joined(seq![x] + rest) == seq![',', ' '] + quoted(x) + rest_joined(rest),
{
    assert((seq![x] + rest).skip(1) =~= rest);
    assert((seq![x] + rest)[0] == x);
}

/// One step of `useful_of` on a list with a known first element.
proof fn lemma_useful_of_unfold(x: Seq<char>, rest: Seq<Seq<char>>)
    ensures
        field_is_useful(x) ==> useful_of(seq![x] + rest) == seq![x] + useful_of(rest),
        !field_is_useful(x) ==> useful_of(seq![x] + rest) == useful_of(rest),
{
    assert((seq![x] + rest).skip(1) =~= rest);
    assert((seq![x] + rest)[0] == x);
}

/// One step of `alert_outputs` on a row list with a known first row.
proof fn lemma_alert_outputs_unfold(
    row: Seq<char>,
    rest: Seq<Seq<char>>,
    exclusions: Seq<Seq<char>>,
)
    ensures
        passes_exclusions(row, exclusions) && useful_fields(row).len() == 2 ==> alert_outputs(
            seq![row] + rest,
            exclusions,
        ) == (
            seq![message_text(useful_fields(row)[0], useful_fields(row)[1])] + alert_outputs(
                rest,
                exclusions,
            ).0,
            alert_outputs(rest, exclusions).1,
        ),
        passes_exclusions(row, exclusions) && useful_fields(row).len() != 2 ==> alert_outputs(
            seq![row] + rest,
            exclusions,
        ) == (
            alert_outputs(rest, exclusions).0,
            seq![row_error_text(useful_fields(row))] + alert_outputs(rest, exclusions).1,
        ),
        !passes_exclusions(row, exclusions) ==> alert_outputs(seq![row] + rest, exclusions)
            == alert_outputs(rest, exclusions),
{
    assert((seq![row] + rest).skip(1) =~= rest);
    assert((seq![row] + rest)[0] == row);
}

/// The number of rows that survive domain exclusion.
pub open spec fn eligible_count(rows: Seq<Seq<char>>, exclusions: Seq<Seq<char>>) -> nat
    decreases rows.len(),
{
    if rows.len() == 0 {
        0
    } else {
        (if passes_exclusions(rows[0], exclusions) {
            1nat
        } else {
            0nat
        }) + eligible_count(rows.skip(1), exclusions)
    }
}

/// Law: every eligible row contributes exactly one output. The number of
/// summaries plus the number of diagnostics equals the number of rows that
/// survive domain exclusion, and eligible rows are exactly those that
/// survive it (`eligible_count` counts `passes_exclusions`).
pub proof fn lemma_message_error_count(rows: Seq<Seq<char>>, exclusions: Seq<Seq<char>>)
    ensures
        alert_outputs(rows, exclusions).0.len() + alert_outputs(rows, exclusions).1.len()
            == eligible_count(rows, exclusions),
    decreases rows.len(),
{
    if rows.len() == 0 {
    } else {
        lemma_message_error_count(rows.skip(1), exclusions);
    }
}

/// Law: with an empty exclusion list no row is excluded by domain logic:
/// every row is eligible and contributes one summary or one diagnostic.
pub proof fn lemma_empty_exclusions_exclude_nothing(
    rows: Seq<Seq<char>>,
    exclusions: Seq<Seq<char>>,
)
    requires
        exclusions.len() == 0,
    ensures
        forall|i: int| 0 <= i < rows.len() ==> passes_exclusions(#[trigger] rows[i], exclusions),
        eligible_count(rows, exclusions) == rows.len(),
        alert_outputs(rows, exclusions).0.len() + alert_outputs(rows, exclusions).1.len()
            == rows.len(),
    decreases rows.len(),
{
    lemma_message_error_count(rows, exclusions);
    if rows.len() == 0 {
    } else {
        lemma_empty_exclusions_exclude_nothing(rows.skip(1), exclusions);
    }
}

/// Law: every output comes from some eligible row of the given list — a
/// summary from a row with exactly two payload fields, a diagnostic from an
/// eligible row with any other number of them.
pub proof fn lemma_outputs_provenance(rows: Seq<Seq<char>>, exclusions: Seq<Seq<char>>)
    ensures
        forall|m: Seq<char>| #[trigger]
            alert_outputs(rows, exclusions).0.contains(m) ==> exists|i: int|
                0 <= i < rows.len() && passes_exclusions(#[trigger] rows[i], exclusions)
                    && useful_fields(rows[i]).len() == 2 && m == message_text(
                    useful_fields(rows[i])[0],
                    useful_fields(rows[i])[1],
                ),
        forall|e: Seq<char>| #[trigger]
            alert_outputs(rows, exclusions).1.contains(e) ==> exists|i: int|
                0 <= i < rows.len() && passes_exclusions(#[trigger] rows[i], exclusions)
                    && useful_fields(rows[i]).len() != 2 && e == row_error_text(
                    useful_fields(rows[i]),
                ),
    decreases rows.len(),
{
    if rows.len() == 0 {
    } else {
        let rest = rows.skip(1);
        lemma_outputs_provenance(rest, exclusions);
        let out = alert_outputs(rows, exclusions);
        let rest_out = alert_outputs(rest, exclusions);
        assert forall|m: Seq<char>| #[trigger] out.0.contains(m) implies exists|i: int|
            0 <= i < rows.len() && passes_exclusions(#[trigger] rows[i], exclusions)
                && useful_fields(rows[i]).len() == 2 && m == message_text(
                useful_fields(rows[i])[0],
                useful_fields(rows[i])[1],
            ) by {
            let j = choose|j: int| 0 <= j < out.0.len() && out.0[j] == m;
            if passes_exclusions(rows[0], exclusions) && useful_fields(rows[0]).len() == 2 && j
                == 0 {
                assert(rows[0] == rows[0]);
            } else {
                let shift: int = if passes_exclusions(rows[0], exclusions) && useful_fields(
                    rows[0],
                ).len() == 2 {
                    1
                } else {
                    0
                };
                assert(rest_out.0[j - shift] == m);
                assert(rest_out.0.contains(m));
                let i = choose|i: int|
                    0 <= i < rest.len() && passes_exclusions(#[trigger] rest[i], exclusions)
                        && useful_fields(rest[i]).len() == 2 && m == message_text(
                        useful_fields(rest[i])[0],
                        useful_fields(rest[i])[1],
                    );
                assert(rows[i + 1] == rest[i]);
            }
        }
        assert forall|e: Seq<char>| #[trigger] out.1.contains(e) implies exists|i: int|
            0 <= i < rows.len() && passes_exclusions(#[trigger] rows[i], exclusions)
                && useful_fields(rows[i]).len() != 2 && e == row_error_text(
                useful_fields(rows[i]),
            ) by {
            let j = choose|j: int| 0 <= j < out.1.len() && out.1[j] == e;
            if passes_exclusions(rows[0], exclusions) && useful_fields(rows[0]).len() != 2 && j
                == 0 {
                assert(rows[0] == rows[0]);
            } else {
                let shift: int = if passes_exclusions(rows[0], exclusions) && useful_fields(
                    rows[0],
                ).len() != 2 {
                    1
                } else {
                    0
                };
                assert(rest_out.1[j - shift] == e);
                assert(rest_out.1.contains(e));
                let i = choose|i: int|
                    0 <= i < rest.len() && passes_exclusions(#[trigger] rest[i], exclusions)
                        && useful_fields(rest[i]).len() != 2 && e == row_error_text(
                        useful_fields(rest[i]),
                    );
                assert(rows[i + 1] == rest[i]);
            }
        }
    }
}

/// Law: the header row feeds no output. Every summary and every diagnostic
/// of a parse comes from a table row other than the first, whatever the
/// table size.
pub proof fn lemma_header_row_not_in_outputs(body: Seq<char>, exclusions: Seq<Seq<char>>)
    ensures
        forall|m: Seq<char>| #[trigger]
            alert_messages(body, exclusions).contains(m) ==> exists|i: int|
                1 <= i < table_rows(body).len() && m == message_text(
                    useful_fields(#[trigger] table_rows(body)[i])[0],
                    useful_fields(table_rows(body)[i])[1],
                ),
        forall|e: Seq<char>| #[trigger]
            alert_row_errors(body, exclusions).contains(e) ==> exists|i: int|
                1 <= i < table_rows(body).len() && e == row_error_text(
                    useful_fields(#[trigger] table_rows(body)[i]),
                ),
{
    let rows = table_rows(body);
    let dr = data_rows(body);
    lemma_outputs_provenance(dr, exclusions);
    assert forall|m: Seq<char>| #[trigger] alert_messages(body, exclusions).contains(m) implies
        exists|i: int|
            1 <= i < table_rows(body).len() && m == message_text(
                useful_fields(#[trigger] table_rows(body)[i])[0],
                useful_fields(table_rows(body)[i])[1],
            ) by {
        let j = choose|j: int|
            0 <= j < dr.len() && passes_exclusions(#[trigger] dr[j], exclusions) && useful_fields(
                dr[j],
            ).len() == 2 && m == message_text(useful_fields(dr[j])[0], useful_fields(dr[j])[1]);
        assert(rows[j + 1] == dr[j]);
    }
    assert forall|e: Seq<char>| #[trigger] alert_row_errors(body, exclusions).contains(e) implies
        exists|i: int|
            1 <= i < table_rows(body).len() && e == row_error_text(
                useful_fields(#[trigger] table_rows(body)[i]),
            ) by {
        let j = choose|j: int|
            0 <= j < dr.len() && passes_exclusions(#[trigger] dr[j], exclusions) && useful_fields(
                dr[j],
            ).len() != 2 && e == row_error_text(useful_fields(dr[j]));
        assert(rows[j + 1] == dr[j]);
    }
}

/// Decides whether a character is a pattern metacharacter.
fn char_is_special(c: char) -> (r: bool)
    ensures
        r == is_special_char(c),
{
    c == '\\' || c == '(' || c == ')' || c == '[' || c == ']' || c == '{' || c == '}' || c == '|'
        || c == '*' || c == '+' || c == '?' || c == '^' || c == '$'
}

/// Decides whether any character of `s` is a pattern metacharacter.
fn has_special(s: &Vec<char>) -> (r: bool)
    ensures
        r == has_special_char(s@),
{
    let mut i: usize = 0;
    while i < s.len()
        invariant
            i <= s@.len(),
            forall|k: int| 0 <= k < i ==> !is_special_char(s@[k]),
        decreases s@.len() - i,
    {
        if char_is_special(s[i]) {
            return true;
        }
        i += 1;
    }
    false
}

/// The administrative-label terms as character vectors.
fn admin_term_vecs() -> (r: Vec<Vec<char>>)
    ensures
        views(r@) == admin_field_terms(),
{
    let mut cipp: Vec<char> = Vec::new();
    cipp.push('C');
    cipp.push('I');
    cipp.push('P');
    cipp.push('P');
    let mut alerts: Vec<char> = Vec::new();
    alerts.push('A');
    alerts.push('l');
    alerts.push('e');
    alerts.push('r');
    alerts.push('t');
    alerts.push('s');
    let mut alert: Vec<char> = Vec::new();
    alert.push('A');
    alert.push('l');
    alert.push('e');
    alert.push('r');
    alert.push('t');
    let mut r: Vec<Vec<char>> = Vec::new();
    r.push(cipp);
    r.push(alerts);
    r.push(alert);
    proof {
        assert(views(r@)[0] =~= admin_field_terms()[0]);
        assert(views(r@)[1] =~= admin_field_terms()[1]);
        assert(views(r@)[2] =~= admin_field_terms()[2]);
        assert(views(r@) =~= admin_field_terms());
    }
    r
}

/// The payload fields of a row: cell texts with administrative labels
/// dropped, in order.
fn useful_fields_of(row: &Vec<char>) -> (r: Vec<Vec<char>>)
    ensures
        views(r@) == useful_fields(row@),
{
    let open = marker_chars(true, false);
    let close = marker_chars(true, true);
    let cells = extract_spans(row, &open, &close);
    let terms = admin_term_vecs();
    let ghost texts = cell_texts(row@);
    let mut r: Vec<Vec<char>> = Vec::new();
    let mut j: usize = 0;
    proof {
        assert(texts.skip(0) =~= texts);
        assert(views(r@) + useful_of(texts) =~= useful_of(texts));
        assert(texts.len() == cells@.len());
    }
    while j < cells.len()
        invariant
            j <= cells@.len(),
            texts == cell_texts(row@),
            texts.len() == cells@.len(),
            views(cells@) == spans_from(row@, cell_open(), cell_close(), 0),
            views(terms@) == admin_field_terms(),
            useful_of(texts) == views(r@) + useful_of(texts.skip(j as int)),
        decreases cells@.len() - j,
    {
        let stripped = strip_cell_markers(&cells[j]);
        proof {
            assert(texts[j as int] == strip_cell_markers_from(views(cells@)[j as int], 0));
            assert(stripped@ == texts[j as int]);
            assert(texts.skip(j as int) =~= seq![texts[j as int]] + texts.skip(j + 1));
            lemma_useful_of_unfold(texts[j as int], texts.skip(j + 1));
        }
        let ghost prev = views(r@);
        if passes_all(&stripped, &terms) {
            r.push(stripped);
            proof {
                assert(views(r@) =~= prev + seq![texts[j as int]]);
                assert(prev + (seq![texts[j as int]] + useful_of(texts.skip(j + 1))) =~= (prev
                    + seq![texts[j as int]]) + useful_of(texts.skip(j + 1)));
            }
        }
        j += 1;
    }
    proof {
        assert(texts.skip(texts.len() as int) =~= Seq::<Seq<char>>::empty());
        assert(views(r@) + useful_of(texts.skip(texts.len() as int)) =~= views(r@));
    }
    r
}

/// Builds the summary string `message (tenant)` as characters.
fn build_message(message: &Vec<char>, tenant: &Vec<char>) -> (r: Vec<char>)
    ensures
        r@ == message_text(message@, tenant@),
{
    let mut r: Vec<char> = Vec::new();
    extend_chars(&mut r, message);
    r.push(' ');
    r.push('(');
    extend_chars(&mut r, tenant);
    r.push(')');
    proof {
        assert(r@ =~= message_text(message@, tenant@));
    }
    r
}

/// Builds the row diagnostic for a surviving field list, as characters.
fn build_row_error(fields: &Vec<Vec<char>>) -> (r: Vec<char>)
    ensures
        r@ == row_error_text(views(fields@)),
{
    let prefix =
        "Something is wrong with data extracted from row, expected exactly 2 useful fields, skipping this one in output: ";
    let mut r = chars_of(prefix);
    r.push('[');
    let ghost fs = views(fields@);
    if fields.len() > 0 {
        r.push('"');
        extend_chars(&mut r, &fields[0]);
        r.push('"');
        proof {
            assert(r@ =~= row_error_prefix() + seq!['['] + quoted(fs[0]));
        }
        let mut j: usize = 1;
        while j < fields.len()
            invariant
                1 <= j <= fields@.len(),
                fs == views(fields@),
                r@ + rest_joined(fs.skip(j as int)) == row_error_prefix() + seq!['[']
                    + joined_fields(fs),
            decreases fields@.len() - j,
        {
            let ghost prev = r@;
            r.push(',');
            r.push(' ');
            r.push('"');
            extend_chars(&mut r, &fields[j]);
            r.push('"');
            proof {
                assert(fs[j as int] == fields@[j as int]@);
                assert(fs.skip(j as int) =~= seq![fs[j as int]] + fs.skip(j + 1));
                lemma_rest_joined_unfold(fs[j as int], fs.skip(j + 1));
                assert(r@ + rest_joined(fs.skip(j + 1)) =~= prev + rest_joined(fs.skip(j as int)));
            }
            j += 1;
        }
        proof {
            assert(fs.skip(fields@.len() as int) =~= Seq::<Seq<char>>::empty());
            assert(r@ + rest_joined(fs.skip(fields@.len() as int)) =~= r@);
        }
    } else {
        proof {
            assert(r@ =~= row_error_prefix() + seq!['['] + joined_fields(fs));
        }
    }
    r.push(']');
    proof {
        assert(r@ =~= row_error_text(fs));
    }
    r
}

/// Extracts one summary string per well-formed data row of the alert body
/// and one diagnostic per malformed one, in row order, skipping the header
/// row and every row that contains a domain exclusion. Fails exactly when
/// some exclusion cannot be taken as literal text, that is, when it holds a
/// pattern metacharacter.
pub fn parse_messages_from_email_alert_body_v1(
    body: String,
    domain_exclusions: Vec<String>,
) -> (r: Result<(Vec<String>, Vec<String>), String>)
    ensures
        match r {
            Err(e) => exclusions_rejected(string_views(domain_exclusions@)) && e@
                == construction_error_text(),
            Ok(out) => !exclusions_rejected(string_views(domain_exclusions@)) && string_views(
                out.0@,
            ) == alert_messages(body@, string_views(domain_exclusions@)) && string_views(out.1@)
                == alert_row_errors(body@, string_views(domain_exclusions@)),
        },
{
    let ghost ex = string_views(domain_exclusions@);
    let exclusion_chars = to_char_vecs(&domain_exclusions);
    let mut k: usize = 0;
    while k < exclusion_chars.len()
        invariant
            k <= exclusion_chars@.len(),
            ex == string_views(domain_exclusions@),
            views(exclusion_chars@) == ex,
            forall|j: int| 0 <= j < k ==> !has_special_char(#[trigger] ex[j]),
        decreases exclusion_chars@.len() - k,
    {
        if has_special(&exclusion_chars[k]) {
            proof {
                assert(has_special_char(ex[k as int]));
                assert(exclusions_rejected(ex));
                assert("Invalid input for generating dynamic matching rule, domain exclusions must contain literal text only"@
                    == construction_error_text());
            }
            return Err(String::from_str(
                "Invalid input for generating dynamic matching rule, domain exclusions must contain literal text only",
            ));
        }
        k += 1;
    }
    let body_chars = chars_of(body.as_str());
    let normalized = strip_crlf(&body_chars);
    let tr_open = marker_chars(false, false);
    let tr_close = marker_chars(false, true);
    let rows = extract_spans(&normalized, &tr_open, &tr_close);
    let ghost dr = data_rows(body@);
    let mut messages: Vec<String> = Vec::new();
    let mut errors: Vec<String> = Vec::new();
    if rows.len() == 0 {
        proof {
            assert(string_views(messages@) =~= alert_messages(body@, ex));
            assert(string_views(errors@) =~= alert_row_errors(body@, ex));
        }
        return Ok((messages, errors));
    }
    proof {
        assert(dr =~= views(rows@).skip(1));
        assert(dr.skip(0) =~= dr);
        assert(string_views(messages@) + alert_outputs(dr, ex).0 =~= alert_outputs(dr, ex).0);
        assert(string_views(errors@) + alert_outputs(dr, ex).1 =~= alert_outputs(dr, ex).1);
    }
    let mut i: usize = 1;
    while i < rows.len()
        invariant
            1 <= i <= rows@.len(),
            ex == string_views(domain_exclusions@),
            views(exclusion_chars@) == ex,
            dr == data_rows(body@),
            dr =~= views(rows@).skip(1),
            alert_outputs(dr, ex).0 == string_views(messages@) + alert_outputs(
                dr.skip(i - 1),
                ex,
            ).0,
            alert_outputs(dr, ex).1 == string_views(errors@) + alert_outputs(dr.skip(i - 1), ex).1,
        decreases rows@.len() - i,
    {
        let ghost row_view = dr[i - 1];
        proof {
            assert(row_view == rows@[i as int]@);
            assert(dr.skip(i - 1) =~= seq![row_view] + dr.skip(i as int));
            lemma_alert_outputs_unfold(row_view, dr.skip(i as int), ex);
        }
        if passes_all(&rows[i], &exclusion_chars) {
            let fields = useful_fields_of(&rows[i]);
            if fields.len() == 2 {
                let text = build_message(&fields[0], &fields[1]);
                let ghost prev = string_views(messages@);
                messages.push(string_of(&text));
                proof {
                    assert(views(fields@)[0] == useful_fields(row_view)[0]);
                    assert(views(fields@)[1] == useful_fields(row_view)[1]);
                    assert(string_views(messages@) =~= prev + seq![text@]);
                    assert(prev + (seq![text@] + alert_outputs(dr.skip(i as int), ex).0) =~= (prev
                        + seq![text@]) + alert_outputs(dr.skip(i as int), ex).0);
                }
            } else {
                let text = build_row_error(&fields);
                let ghost prev = string_views(errors@);
                errors.push(string_of(&text));
                proof {
                    assert(string_views(errors@) =~= prev + seq![text@]);
                    assert(prev + (seq![text@] + alert_outputs(dr.skip(i as int), ex).1) =~= (prev
                        + seq![text@]) + alert_outputs(dr.skip(i as int), ex).1);
                }
            }
        }
        i += 1;
    }
    proof {
        assert(dr.skip(rows@.len() - 1) =~= Seq::<Seq<char>>::empty());
        assert(string_views(messages@) + alert_outputs(dr.skip(rows@.len() - 1), ex).0
            =~= string_views(messages@));
        assert(string_views(errors@) + alert_outputs(dr.skip(rows@.len() - 1), ex).1
            =~= string_views(errors@));
    }
    Ok((messages, errors))
}

} // verus!
