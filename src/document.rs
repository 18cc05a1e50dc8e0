use vstd::prelude::*;
use vstd::string::*;
use crate::classify::{
    classification, classify_columns, descriptors_view, find_identifier_column, first_position,
    identifier_named, option_nat, positions_distinct, ClassifierConfig, ColumnDescriptor,
};
use crate::text::{text_eq, trim_text, trimmed};
use crate::transform::{correlation, record_view, transform_row, transformed_row, CorrelationRecord};

verus! {

/// Why a document could not be processed.
#[derive(Clone, Copy, Debug, PartialEq, Eq, Structural)]
pub enum ProcessError {
    /// The document has no rows at all.
    EmptyDocument,
    /// No row starts with the header label that was asked for.
    HeaderNotFound,
    /// The file's extension names no supported format.
    UnsupportedFileType,
    /// Reading or writing a file failed.
    IoFailure,
}

/// The tabular formats that are read and written.
#[derive(Clone, Copy, Debug, PartialEq, Eq, Structural)]
pub enum FileType {
    Excel,
    Csv,
}

/// The format that a file extension names: `xlsx` and `xls` for a
/// workbook, `csv` for delimited text.
pub fn detect_file_type(extension: Option<&str>) -> (r: Result<FileType, ProcessError>)
    ensures
        match extension {
            Some(e) => if e@ == "xlsx"@ || e@ == "xls"@ {
                r == Ok::<FileType, ProcessError>(FileType::Excel)
            } else if e@ == "csv"@ {
                r == Ok::<FileType, ProcessError>(FileType::Csv)
            } else {
                r == Err::<FileType, ProcessError>(ProcessError::UnsupportedFileType)
            },
            None => r == Err::<FileType, ProcessError>(ProcessError::UnsupportedFileType),
        },
{
    match extension {
        Some(e) => if text_eq(e, "xlsx") || text_eq(e, "xls") {
            Ok(FileType::Excel)
        } else if text_eq(e, "csv") {
            Ok(FileType::Csv)
        } else {
            Err(ProcessError::UnsupportedFileType)
        },
        None => Err(ProcessError::UnsupportedFileType),
    }
}

pub open spec fn label_view(label: Option<&str>) -> Option<Seq<char>> {
    match label {
        Some(s) => Some(s@),
        None => None,
    }
}

/// The row's first cell, trimmed, is `label`.
pub open spec fn starts_with_label(row: Seq<Seq<char>>, label: Seq<char>) -> bool {
    row.len() > 0 && trimmed(row[0]) == label
}

/// Row `h` is the header: the first row when no label is given, else the
/// first row that starts with the label.
pub open spec fn is_header_index(rows: Seq<Seq<Seq<char>>>, label: Option<Seq<char>>, h: int) -> bool {
    0 <= h < rows.len() && match label {
        None => h == 0,
        Some(l) => starts_with_label(rows[h], l) && forall|j: int|
            0 <= j < h ==> !starts_with_label(#[trigger] rows[j], l),
    }
}

pub open spec fn header_found(rows: Seq<Seq<Seq<char>>>, label: Option<Seq<char>>) -> bool {
    exists|h: int| is_header_index(rows, label, h)
}

pub open spec fn header_index(rows: Seq<Seq<Seq<char>>>, label: Option<Seq<char>>) -> int {
    choose|h: int| is_header_index(rows, label, h)
}

/// The error for a document without a header row.
pub open spec fn header_error(rows: Seq<Seq<Seq<char>>>) -> ProcessError {
    if rows.len() == 0 {
        ProcessError::EmptyDocument
    } else {
        ProcessError::HeaderNotFound
    }
}

/// A document has at most one header row.
pub proof fn header_index_unique(rows: Seq<Seq<Seq<char>>>, label: Option<Seq<char>>, h1: int, h2: int)
    requires
        is_header_index(rows, label, h1),
        is_header_index(rows, label, h2),
    ensures
        h1 == h2,
{
    if h1 < h2 {
        assert(!starts_with_label(rows[h1], label->0));
    } else if h2 < h1 {
        assert(!starts_with_label(rows[h2], label->0));
    }
}

/// Finds the header row: the first row, or, given a label, the first row
/// whose first cell trimmed equals the label.
pub fn locate_header(rows: &Vec<Vec<String>>, label: Option<&str>) -> (r: Result<usize, ProcessError>)
    ensures
        match r {
            Ok(h) => is_header_index(rows.deep_view(), label_view(label), h as int),
            Err(e) => !header_found(rows.deep_view(), label_view(label)) && e == header_error(
                rows.deep_view(),
            ),
        },
{
    let ghost rv = rows.deep_view();
    if rows.len() == 0 {
        return Err(ProcessError::EmptyDocument);
    }
    match label {
        None => Ok(0),
        Some(l) => {
            let mut i: usize = 0;
            while i < rows.len()
                invariant
                    rv == rows.deep_view(),
                    label_view(label) == Some(l@),
                    i <= rows.len(),
                    forall|j: int| 0 <= j < i ==> !starts_with_label(#[trigger] rv[j], l@),
                decreases rows.len() - i,
            {
                let row = &rows[i];
                assert(rv[i as int] == row.deep_view());
                if row.len() > 0 {
                    assert(rv[i as int][0] == row[0]@);
                    if text_eq(trim_text(row[0].as_str()), l) {
                        assert(starts_with_label(rv[i as int], l@));
                        return Ok(i);
                    }
                }
                i = i + 1;
            }
            Err(ProcessError::HeaderNotFound)
        },
    }
}

/// Keeps the values that are present, in their order.
pub open spec fn present<T>(opts: Seq<Option<T>>) -> Seq<T>
    decreases opts.len(),
{
    if opts.len() == 0 {
        seq![]
    } else {
        let prev = present(opts.drop_last());
        match opts.last() {
            Some(x) => prev.push(x),
            None => prev,
        }
    }
}

pub open spec fn records_view(rs: Seq<CorrelationRecord>) -> Seq<(Seq<char>, Seq<char>, Seq<char>)> {
    rs.map_values(|c: CorrelationRecord| c@)
}

/// The sequence columns of a document whose header is row `h`.
pub open spec fn document_descriptors(
    cfg: ClassifierConfig,
    rows: Seq<Seq<Seq<char>>>,
    h: int,
) -> Seq<(nat, Seq<char>, bool)> {
    classification(cfg, rows[h], rows.skip(h + 1))
}

/// The identifier column of a document whose header is row `h`.
pub open spec fn document_identifier(rows: Seq<Seq<Seq<char>>>, h: int) -> Option<nat> {
    first_position(rows[h], identifier_named(), rows[h].len())
}

/// The output rows: the header, then each data row transformed.
pub open spec fn output_rows(cfg: ClassifierConfig, rows: Seq<Seq<Seq<char>>>, h: int) -> Seq<Seq<Seq<char>>> {
    let ds = document_descriptors(cfg, rows, h);
    seq![rows[h]] + rows.skip(h + 1).map_values(|r: Seq<Seq<char>>| transformed_row(ds, r))
}

/// The correlation records of the data rows, in row order.
pub open spec fn output_records(
    cfg: ClassifierConfig,
    rows: Seq<Seq<Seq<char>>>,
    h: int,
) -> Seq<(Seq<char>, Seq<char>, Seq<char>)> {
    let ds = document_descriptors(cfg, rows, h);
    let id = document_identifier(rows, h);
    present(rows.skip(h + 1).map_values(|r: Seq<Seq<char>>| correlation(ds, r, id)))
}

/// What processing a document gives.
pub struct ProcessedDocument {
    /// Where the header row stood in the input.
    pub header_index: usize,
    /// The sequence columns.
    pub descriptors: Vec<ColumnDescriptor>,
    /// The identifier column, if the header names one.
    pub identifier_column: Option<usize>,
    /// The header row, then every data row transformed.
    pub rows: Vec<Vec<String>>,
    /// The correlation records, one for each data row that has one.
    pub records: Vec<CorrelationRecord>,
}

/// Processes a document: finds its header row, classifies its columns,
/// transforms every data row and collects the correlation records. Rows
/// above the header row are left out of the output.
pub fn process_document(
    rows: Vec<Vec<String>>,
    label: Option<&str>,
    cfg: &ClassifierConfig,
) -> (r: Result<ProcessedDocument, ProcessError>)
    ensures
        match r {
            Ok(doc) => {
                let rv = rows.deep_view();
                let h = header_index(rv, label_view(label));
                &&& header_found(rv, label_view(label))
                &&& doc.header_index == h
                &&& descriptors_view(doc.descriptors@) == document_descriptors(*cfg, rv, h)
                &&& option_nat(doc.identifier_column) == document_identifier(rv, h)
                &&& doc.rows.deep_view() == output_rows(*cfg, rv, h)
                &&& records_view(doc.records@) == output_records(*cfg, rv, h)
            },
            Err(e) => !header_found(rows.deep_view(), label_view(label)) && e == header_error(
                rows.deep_view(),
            ),
        },
        rows.len() == 0 ==> r == Err::<ProcessedDocument, ProcessError>(ProcessError::EmptyDocument),
        rows.len() > 0 && label is Some && (forall|j: int|
            0 <= j < rows.len() ==> !starts_with_label(#[trigger] rows.deep_view()[j], label->0@))
            ==> r == Err::<ProcessedDocument, ProcessError>(ProcessError::HeaderNotFound),
{
    let ghost rv = rows.deep_view();
    let h = match locate_header(&rows, label) {
        Ok(h) => h,
        Err(e) => {
            return Err(e);
        },
    };
    proof {
        let c = header_index(rv, label_view(label));
        header_index_unique(rv, label_view(label), c, h as int);
    }
    assert(rv.len() == rows.len());
    let mut rows = rows;
    let data = rows.split_off(h + 1);
    let header = match rows.pop() {
        Some(row) => row,
        None => Vec::new(),
    };
    let ghost dv = rv.skip(h + 1);
    assert(data.deep_view() =~= dv);
    assert(header.deep_view() =~= rv[h as int]);
    let descriptors = classify_columns(&header, &data, cfg);
    let identifier = find_identifier_column(&header);
    let ghost ds = document_descriptors(*cfg, rv, h as int);
    let ghost id = document_identifier(rv, h as int);
    let ghost opts = dv.map_values(|r: Seq<Seq<char>>| correlation(ds, r, id));
    let mut out: Vec<Vec<String>> = Vec::new();
    out.push(header);
    let mut records: Vec<CorrelationRecord> = Vec::new();
    let mut i: usize = 0;
    while i < data.len()
        invariant
            dv == data.deep_view(),
            ds == descriptors_view(descriptors@),
            positions_distinct(ds),
            id == option_nat(identifier),
            opts == dv.map_values(|r: Seq<Seq<char>>| correlation(ds, r, id)),
            i <= data.len(),
            h < rv.len(),
            out.deep_view() == seq![rv[h as int]] + dv.take(i as int).map_values(
                |r: Seq<Seq<char>>| transformed_row(ds, r),
            ),
            records_view(records@) == present(opts.take(i as int)),
        decreases data.len() - i,
    {
        let (row_out, record) = transform_row(&data[i], &descriptors, identifier);
        let ghost out_before = out.deep_view();
        let ghost records_before = records@;
        assert(dv[i as int] == data[i as int].deep_view());
        let ghost new_row = row_out.deep_view();
        out.push(row_out);
        assert(out.deep_view() =~= out_before.push(new_row));
        assert(dv.take(i + 1).map_values(|r: Seq<Seq<char>>| transformed_row(ds, r)) =~= dv.take(
            i as int,
        ).map_values(|r: Seq<Seq<char>>| transformed_row(ds, r)).push(new_row));
        assert(out.deep_view() =~= seq![rv[h as int]] + dv.take(i + 1).map_values(
            |r: Seq<Seq<char>>| transformed_row(ds, r),
        ));
        assert(opts.take(i + 1).drop_last() =~= opts.take(i as int));
        assert(opts.take(i + 1).last() == record_view(record));
        match record {
            Some(c) => {
                records.push(c);
                assert(records_view(records@) =~= records_view(records_before).push(c@));
            },
            None => {},
        }
        i = i + 1;
    }
    assert(dv.take(i as int) =~= dv);
    assert(opts.take(i as int) =~= opts);
    Ok(
        ProcessedDocument {
            header_index: h,
            descriptors,
            identifier_column: identifier,
            rows: out,
            records,
        },
    )
}

} // verus!
