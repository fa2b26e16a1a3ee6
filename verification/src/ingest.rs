//! Corpus ingestion logic: turn parsed tabular rows into the mapping from
//! group id (file name) to its ordered messages, dropping empty entries.
//!
//! Reading files off a directory stays outside the library; the library is
//! handed each file's name and text.  Splitting the text into rows of
//! fields is the csv crate's work, behind a trusted wrapper; everything
//! after that — locating the named column, extracting it, filtering empty
//! strings, flattening groups for bulk insertion — is verified.

use vstd::prelude::*;

verus! {

/// The rows of fields that parsing a comma-separated text yields, the first
/// row being the header line.
pub uninterp spec fn csv_rows_of(text: Seq<char>) -> Seq<Seq<Seq<char>>>;

/// Relies on csv::Reader (csv crate): splits comma-separated text into rows
/// of string fields, rows free to differ in width; the result depends on
/// the text alone.
#[verifier::external_body]
fn csv_rows(text: &str) -> (r: Vec<Vec<String>>)
    ensures
        r.deep_view() == csv_rows_of(text@),
{
    let mut reader = csv::ReaderBuilder::new()
        .has_headers(false)
        .flexible(true)
        .from_reader(text.as_bytes());
    reader
        .records()
        .filter_map(|rec| rec.ok())
        .map(|rec| rec.iter().map(|f| f.to_string()).collect())
        .collect()
}

/// How ingestion of a file can fail; any of these aborts the run before it
/// writes anything.
#[derive(Clone, Copy, Debug, PartialEq, Eq, Structural)]
pub enum IngestError {
    /// The file held no rows at all, not even a header.
    EmptyFile,
    /// No header field carries the requested column name.
    MissingColumn,
    /// A data row ends before the requested column.
    ShortRow,
}

/// `idx` is the position of the first header field equal to `name`.
pub open spec fn found_at(header: Seq<Seq<char>>, name: Seq<char>, idx: int) -> bool {
    &&& 0 <= idx < header.len()
    &&& header[idx] == name
    &&& forall|j: int| 0 <= j < idx ==> header[j] != name
}

/// The entries of column `idx` over the given data rows, in row order, with
/// empty entries dropped.
pub open spec fn column_messages(rows: Seq<Seq<Seq<char>>>, idx: int) -> Seq<Seq<char>>
    decreases rows.len(),
{
    if rows.len() == 0 {
        Seq::empty()
    } else {
        let init = column_messages(rows.drop_last(), idx);
        let last = rows.last();
        if 0 <= idx < last.len() && last[idx].len() > 0 {
            init.push(last[idx])
        } else {
            init
        }
    }
}

/// What a successful extraction returns: with `idx` the position of `name`
/// in the header row, every data row reaches past `idx`, and the messages
/// are exactly column `idx` of the data rows with empty entries dropped.
pub open spec fn extracted_ok(rows: Seq<Seq<Seq<char>>>, name: Seq<char>, msgs: Seq<Seq<char>>) -> bool {
    &&& rows.len() > 0
    &&& exists|idx: int| found_at(rows[0], name, idx)
    &&& forall|idx: int| #[trigger] found_at(rows[0], name, idx) ==> {
        &&& (forall|t: int| 1 <= t < rows.len() ==> idx < (#[trigger] rows[t]).len())
        &&& msgs == column_messages(rows.drop_first(), idx)
    }
}

/// The error extracting column `name` from a file's rows must yield, if
/// any: `EmptyFile` on no rows at all, `MissingColumn` when no header field
/// matches, `ShortRow` when a data row ends before the matched column.
pub open spec fn extract_error(rows: Seq<Seq<Seq<char>>>, name: Seq<char>) -> Option<IngestError> {
    if rows.len() == 0 {
        Some(IngestError::EmptyFile)
    } else if !(exists|idx: int| found_at(rows[0], name, idx)) {
        Some(IngestError::MissingColumn)
    } else {
        let idx = choose|idx: int| found_at(rows[0], name, idx);
        if exists|t: int| 1 <= t < rows.len() && (#[trigger] rows[t]).len() <= idx {
            Some(IngestError::ShortRow)
        } else {
            None
        }
    }
}

/// At most one header position is the first match.
pub proof fn lemma_found_at_unique(header: Seq<Seq<char>>, name: Seq<char>, i1: int, i2: int)
    requires
        found_at(header, name, i1),
        found_at(header, name, i2),
    ensures
        i1 == i2,
{
    if i1 < i2 {
        assert(header[i1] == name);
    } else if i2 < i1 {
        assert(header[i2] == name);
    }
}

/// Position of the first header field equal to `name`, if any.
pub fn find_column(header: &Vec<String>, name: &String) -> (r: Option<usize>)
    ensures
        match r {
            Some(idx) => found_at(header.deep_view(), name@, idx as int),
            None => forall|j: int| 0 <= j < header@.len() ==> header.deep_view()[j] != name@,
        },
{
    let mut i: usize = 0;
    while i < header.len()
        invariant
            0 <= i <= header@.len(),
            forall|j: int| 0 <= j < i ==> header.deep_view()[j] != name@,
        decreases header@.len() - i,
    {
        let h: &String = &header[i];
        if h.eq(name) {
            proof {
                assert(header.deep_view()[i as int] == header@[i as int]@);
            }
            return Some(i);
        }
        proof {
            assert(header.deep_view()[i as int] == header@[i as int]@);
        }
        i = i + 1;
    }
    None
}

/// Extract the named column from a file's parsed rows.
///
/// The first row is the header; the following rows are data.  Empty entries
/// are dropped: ingestion filters empty strings out before scoring.  The
/// result is `Ok` exactly when `extract_error` classifies no fault, and
/// otherwise exactly the classified error.
pub fn extract_messages(rows: &Vec<Vec<String>>, column: &String) -> (r: Result<
    Vec<String>,
    IngestError,
>)
    ensures
        match r {
            Ok(msgs) => {
                &&& extracted_ok(rows.deep_view(), column@, msgs.deep_view())
                &&& extract_error(rows.deep_view(), column@) is None
            },
            Err(e) => extract_error(rows.deep_view(), column@) == Some(e),
        },
{
    let ghost rs: Seq<Seq<Seq<char>>> = rows.deep_view();
    if rows.len() == 0 {
        return Err(IngestError::EmptyFile);
    }
    let header: &Vec<String> = &rows[0];
    proof {
        assert(rs[0] == header.deep_view());
        assert(rs[0].len() == header@.len());
    }
    let idx: usize = match find_column(header, column) {
        Some(i) => i,
        None => {
            proof {
                assert forall|j: int| !found_at(rs[0], column@, j) by {
                    if 0 <= j < rs[0].len() {
                        assert(rs[0][j] != column@);
                    }
                }
            }
            return Err(IngestError::MissingColumn);
        },
    };
    let mut out: Vec<String> = Vec::new();
    let mut i: usize = 1;
    while i < rows.len()
        invariant
            1 <= i <= rows@.len(),
            rs == rows.deep_view(),
            found_at(rs[0], column@, idx as int),
            forall|t: int| 1 <= t < i ==> idx < (#[trigger] rs[t]).len(),
            out.deep_view() == column_messages(rs.subrange(1, i as int), idx as int),
        decreases rows@.len() - i,
    {
        let row: &Vec<String> = &rows[i];
        proof {
            assert(rs[i as int] == row.deep_view());
            assert(rs[i as int].len() == row@.len());
        }
        if idx >= row.len() {
            proof {
                let fidx = choose|fidx: int| found_at(rs[0], column@, fidx);
                lemma_found_at_unique(rs[0], column@, fidx, idx as int);
                assert(1 <= (i as int) && (i as int) < rs.len() && rs[i as int].len() <= fidx);
            }
            return Err(IngestError::ShortRow);
        }
        let field: &String = &row[idx];
        proof {
            assert(row.deep_view()[idx as int] == row@[idx as int]@);
            assert(rs.subrange(1, i + 1).drop_last() =~= rs.subrange(1, i as int));
            assert(rs.subrange(1, i + 1).last() == rs[i as int]);
        }
        if !field.as_str().is_empty() {
            out.push(field.clone());
            proof {
                assert(out.deep_view() =~= column_messages(rs.subrange(1, i + 1), idx as int));
            }
        } else {
            proof {
                assert(out.deep_view() =~= column_messages(rs.subrange(1, i + 1), idx as int));
            }
        }
        i = i + 1;
    }
    proof {
        assert(rs.subrange(1, rows@.len() as int) =~= rs.drop_first());
        let fidx = choose|fidx: int| found_at(rs[0], column@, fidx);
        lemma_found_at_unique(rs[0], column@, fidx, idx as int);
    }
    Ok(out)
}

/// Ingest a corpus: for each `(file name, file text)` pair, parse the text
/// as comma-separated rows and extract the named column, yielding the
/// mapping from group id to its ordered non-empty messages.  The first
/// malformed file aborts the whole run, before anything is written.
pub fn collect_file_messages(files: &Vec<(String, String)>, column: &String) -> (r: Result<
    Vec<(String, Vec<String>)>,
    IngestError,
>)
    ensures
        match r {
            Ok(groups) => {
                &&& groups@.len() == files@.len()
                &&& forall|i: int| 0 <= i < files@.len()
                    ==> (#[trigger] groups.deep_view()[i]).0 == files.deep_view()[i].0
                &&& forall|i: int| 0 <= i < files@.len() ==> extracted_ok(
                    csv_rows_of(files.deep_view()[i].1),
                    column@,
                    (#[trigger] groups.deep_view()[i]).1,
                )
            },
            Err(e) => (exists|i: int| {
                &&& 0 <= i < files@.len()
                &&& #[trigger] extract_error(csv_rows_of(files.deep_view()[i].1), column@)
                    == Some(e)
                &&& forall|t: int| 0 <= t < i ==> extract_error(
                    csv_rows_of(files.deep_view()[t].1),
                    column@,
                ) is None
            }),
        },
{
    let ghost fs = files.deep_view();
    let mut groups: Vec<(String, Vec<String>)> = Vec::new();
    let mut i: usize = 0;
    while i < files.len()
        invariant
            0 <= i <= files@.len(),
            fs == files.deep_view(),
            groups@.len() == i,
            forall|t: int| 0 <= t < i ==> (#[trigger] groups.deep_view()[t]).0 == fs[t].0,
            forall|t: int| 0 <= t < i ==> extracted_ok(
                csv_rows_of(fs[t].1),
                column@,
                (#[trigger] groups.deep_view()[t]).1,
            ),
            forall|t: int| 0 <= t < i
                ==> #[trigger] extract_error(csv_rows_of(fs[t].1), column@) is None,
        decreases files@.len() - i,
    {
        let entry: &(String, String) = &files[i];
        proof {
            assert(fs[i as int] == entry.deep_view());
        }
        let rows: Vec<Vec<String>> = csv_rows(entry.1.as_str());
        let msgs: Vec<String> = match extract_messages(&rows, column) {
            Ok(m) => m,
            Err(e) => {
                proof {
                    assert(extract_error(csv_rows_of(fs[i as int].1), column@) == Some(e));
                }
                return Err(e);
            },
        };
        let ghost prev = groups.deep_view();
        groups.push((entry.0.clone(), msgs));
        proof {
            assert(forall|t: int| 0 <= t < i ==> #[trigger] groups.deep_view()[t] == prev[t]);
            assert(groups.deep_view()[i as int].0 == fs[i as int].0);
            assert(groups.deep_view()[i as int].1 == msgs.deep_view());
        }
        i = i + 1;
    }
    Ok(groups)
}

/// One `(group id, message)` pair for every message of every group, groups
/// in order, messages in group order: the flat list of rows a bulk insert
/// of the corpus writes.
pub open spec fn flattened(groups: Seq<(Seq<char>, Seq<Seq<char>>)>) -> Seq<(Seq<char>, Seq<char>)>
    decreases groups.len(),
{
    if groups.len() == 0 {
        Seq::empty()
    } else {
        flattened(groups.drop_last()) + group_pairs(groups.last())
    }
}

/// The `(group id, message)` pairs of a single group.
pub open spec fn group_pairs(group: (Seq<char>, Seq<Seq<char>>)) -> Seq<(Seq<char>, Seq<char>)> {
    Seq::new(group.1.len(), |j: int| (group.0, group.1[j]))
}

/// Flatten the grouped corpus into the rows a bulk insert writes, one
/// `(group id, message)` pair per message, in group order.
pub fn flatten_groups(groups: &Vec<(String, Vec<String>)>) -> (r: Vec<(String, String)>)
    ensures
        r.deep_view() == flattened(groups.deep_view()),
{
    let ghost gs = groups.deep_view();
    let mut out: Vec<(String, String)> = Vec::new();
    proof {
        assert(out.deep_view() =~= flattened(gs.subrange(0, 0)));
    }
    let mut i: usize = 0;
    while i < groups.len()
        invariant
            0 <= i <= groups@.len(),
            gs == groups.deep_view(),
            out.deep_view() == flattened(gs.subrange(0, i as int)),
        decreases groups@.len() - i,
    {
        let entry: &(String, Vec<String>) = &groups[i];
        proof {
            assert(gs[i as int] == entry.deep_view());
        }
        let ghost base = out.deep_view();
        proof {
            assert(base + group_pairs(gs[i as int]).subrange(0, 0) =~= base);
        }
        let mut j: usize = 0;
        while j < entry.1.len()
            invariant
                0 <= j <= entry.1@.len(),
                gs == groups.deep_view(),
                i < groups@.len(),
                gs[i as int] == entry.deep_view(),
                base == flattened(gs.subrange(0, i as int)),
                out.deep_view() == base + group_pairs(gs[i as int]).subrange(0, j as int),
            decreases entry.1@.len() - j,
        {
            let msg: &String = &entry.1[j];
            proof {
                assert(gs[i as int].1 == entry.1.deep_view());
                assert(group_pairs(gs[i as int]).len() == entry.1@.len());
                assert(entry.1.deep_view()[j as int] == entry.1@[j as int]@);
                assert(group_pairs(gs[i as int])[j as int] == (gs[i as int].0, gs[i as int].1[j as int]));
            }
            let fname: String = entry.0.clone();
            let mtext: String = msg.clone();
            proof {
                assert(fname@ == gs[i as int].0);
                assert(mtext@ == gs[i as int].1[j as int]);
            }
            let ghost prevv = out@;
            let ghost pre = out.deep_view();
            out.push((fname, mtext));
            proof {
                let gp = group_pairs(gs[i as int]);
                assert(pre.len() == base.len() + j);
                assert(out.deep_view().len() == base.len() + j + 1);
                assert(out@.last().deep_view() == gp[j as int]);
                assert forall|t: int| 0 <= t < base.len() + j + 1 implies out.deep_view()[t]
                    == (base + gp.subrange(0, j + 1))[t] by {
                    assert(out.deep_view()[t] == out@[t].deep_view());
                    if t < base.len() + j {
                        assert(out@[t] == prevv[t]);
                        assert(pre[t] == prevv[t].deep_view());
                        assert(pre[t] == (base + gp.subrange(0, j as int))[t]);
                        if t < base.len() {
                            assert((base + gp.subrange(0, j + 1))[t] == base[t]);
                        } else {
                            assert((base + gp.subrange(0, j as int))[t] == gp[t - base.len()]);
                            assert((base + gp.subrange(0, j + 1))[t] == gp[t - base.len()]);
                        }
                    } else {
                        assert(out@[t] == out@.last());
                        assert((base + gp.subrange(0, j + 1))[t] == gp[j as int]);
                    }
                }
                assert(out.deep_view() =~= base + gp.subrange(0, j + 1));
            }
            j = j + 1;
        }
        proof {
            assert(group_pairs(gs[i as int]).subrange(0, entry.1@.len() as int) =~= group_pairs(
                gs[i as int],
            ));
            assert(gs.subrange(0, i + 1).drop_last() =~= gs.subrange(0, i as int));
            assert(gs.subrange(0, i + 1).last() == gs[i as int]);
            assert(out.deep_view() =~~= flattened(gs.subrange(0, i + 1)));
        }
        i = i + 1;
    }
    proof {
        assert(gs.subrange(0, groups@.len() as int) =~= gs);
    }
    out
}

} // verus!
