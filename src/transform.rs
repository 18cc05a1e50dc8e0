use vstd::prelude::*;
use vstd::string::*;
use crate::classify::{descriptors_view, option_nat, positions_distinct, ColumnDescriptor};
use crate::codec::{reverse_complement, reverse_complement_of};
use crate::text::{find_char, is_first_index_of, trim_text, trimmed};

verus! {

/// Pairs a row's identifier with the value written into one of its sequence
/// columns.
#[derive(Clone, Debug, PartialEq, Eq)]
pub struct CorrelationRecord {
    pub identifier: String,
    pub new_value: String,
    pub column_name: String,
}

impl View for CorrelationRecord {
    type V = (Seq<char>, Seq<char>, Seq<char>);

    open spec fn view(&self) -> (Seq<char>, Seq<char>, Seq<char>) {
        (self.identifier@, self.new_value@, self.column_name@)
    }
}

pub open spec fn record_view(r: Option<CorrelationRecord>) -> Option<(Seq<char>, Seq<char>, Seq<char>)> {
    match r {
        Some(c) => Some(c@),
        None => None,
    }
}

/// The new value of a sequence cell. With the delimiter flag and a dash in
/// the value, the part after the first dash is reverse complemented and the
/// label before it kept; otherwise the whole value is reverse complemented.
pub open spec fn transformed_value(v: Seq<char>, delimiter: bool) -> Seq<char> {
    if delimiter && v.contains('-') {
        let k = choose|k: int| is_first_index_of(v, '-', k);
        v.take(k) + seq!['-'] + reverse_complement_of(v.skip(k + 1))
    } else {
        reverse_complement_of(v)
    }
}

pub fn transform_value(value: &str, delimiter: bool) -> (r: String)
    ensures
        r@ == transformed_value(value@, delimiter),
{
    if delimiter {
        if let Some(k) = find_char(value, '-') {
            let n = value.unicode_len();
            let prefix = value.substring_char(0, k);
            let suffix = value.substring_char(k + 1, n);
            let mut out = String::from_str(prefix);
            out.append("-");
            let tail = reverse_complement(suffix);
            out.append(tail.as_str());
            proof {
                reveal_strlit("-");
                assert(value@.contains('-'));
                let c = choose|c: int| is_first_index_of(value@, '-', c);
                if c < k {
                    assert(value@[c] != '-');
                } else if c > k {
                    assert(value@[k as int] != '-');
                }
                assert(prefix@ =~= value@.take(k as int));
                assert(suffix@ =~= value@.skip(k + 1));
                assert("-"@ =~= seq!['-']);
            }
            return out;
        }
    }
    reverse_complement(value)
}

/// Some descriptor names column `col`.
pub open spec fn covered(ds: Seq<(nat, Seq<char>, bool)>, col: int) -> bool {
    exists|i: int| 0 <= i < ds.len() && ds[i].0 == col
}

/// The descriptor that names column `col`.
pub open spec fn covering_index(ds: Seq<(nat, Seq<char>, bool)>, col: int) -> int {
    choose|i: int| 0 <= i < ds.len() && ds[i].0 == col
}

/// The value of column `col` after the transformation.
pub open spec fn output_cell(ds: Seq<(nat, Seq<char>, bool)>, row: Seq<Seq<char>>, col: int) -> Seq<char> {
    if covered(ds, col) {
        transformed_value(row[col], ds[covering_index(ds, col)].2)
    } else {
        row[col]
    }
}

/// The row with each sequence cell transformed and every other cell kept.
pub open spec fn transformed_row(ds: Seq<(nat, Seq<char>, bool)>, row: Seq<Seq<char>>) -> Seq<Seq<char>> {
    Seq::new(row.len(), |c: int| output_cell(ds, row, c))
}

/// The last of the first `n` columns that a descriptor names.
pub open spec fn last_covered(ds: Seq<(nat, Seq<char>, bool)>, n: nat) -> Option<nat>
    decreases n,
{
    if n == 0 {
        None
    } else if covered(ds, n - 1) {
        Some((n - 1) as nat)
    } else {
        last_covered(ds, (n - 1) as nat)
    }
}

/// The correlation record of a row: its identifier, with the value and the
/// name of the last sequence column transformed in it. There is none where
/// the identifier is missing or blank, or no sequence cell was transformed.
pub open spec fn correlation(
    ds: Seq<(nat, Seq<char>, bool)>,
    row: Seq<Seq<char>>,
    identifier: Option<nat>,
) -> Option<(Seq<char>, Seq<char>, Seq<char>)> {
    match identifier {
        Some(p) => match last_covered(ds, row.len()) {
            Some(c) => if p < row.len() && trimmed(row[p as int]).len() > 0 {
                Some((row[p as int], output_cell(ds, row, c as int), ds[covering_index(ds, c as int)].1))
            } else {
                None
            },
            None => None,
        },
        None => None,
    }
}

/// The descriptor for column `col`, if any.
fn descriptor_for(descriptors: &Vec<ColumnDescriptor>, col: usize) -> (r: Option<usize>)
    requires
        positions_distinct(descriptors_view(descriptors@)),
    ensures
        covered(descriptors_view(descriptors@), col as int) == r is Some,
        r is Some ==> {
            let i = r->0;
            &&& i < descriptors.len()
            &&& descriptors[i as int].position == col
            &&& i == covering_index(descriptors_view(descriptors@), col as int)
        },
{
    let ghost ds = descriptors_view(descriptors@);
    let mut i: usize = 0;
    while i < descriptors.len()
        invariant
            ds == descriptors_view(descriptors@),
            positions_distinct(ds),
            i <= descriptors.len(),
            forall|j: int| 0 <= j < i ==> descriptors[j].position != col,
        decreases descriptors.len() - i,
    {
        if descriptors[i].position == col {
            proof {
                assert(ds[i as int].0 == col);
                let c = covering_index(ds, col as int);
                assert(ds[c].0 == col);
                if c != i {
                    assert(ds[c].0 != ds[i as int].0);
                }
            }
            return Some(i);
        }
        i = i + 1;
    }
    proof {
        if covered(ds, col as int) {
            let c = choose|c: int| 0 <= c < ds.len() && ds[c].0 == col;
            assert(descriptors[c].position != col);
        }
    }
    None
}

/// Transforms one data row: every cell of a sequence column gets its new
/// value, every other cell is copied. Also gives the row's correlation
/// record, if it has one.
pub fn transform_row(
    row: &Vec<String>,
    descriptors: &Vec<ColumnDescriptor>,
    identifier: Option<usize>,
) -> (r: (Vec<String>, Option<CorrelationRecord>))
    requires
        positions_distinct(descriptors_view(descriptors@)),
    ensures
        r.0.deep_view() == transformed_row(descriptors_view(descriptors@), row.deep_view()),
        record_view(r.1) == correlation(descriptors_view(descriptors@), row.deep_view(), option_nat(identifier)),
{
    let ghost ds = descriptors_view(descriptors@);
    let ghost rv = row.deep_view();
    let mut out: Vec<String> = Vec::new();
    let mut last: Option<(usize, usize)> = None;
    let mut col: usize = 0;
    while col < row.len()
        invariant
            ds == descriptors_view(descriptors@),
            rv == row.deep_view(),
            positions_distinct(ds),
            col <= row.len(),
            out.len() == col,
            forall|j: int| 0 <= j < col ==> out[j]@ == output_cell(ds, rv, j),
            match last {
                Some((c, i)) => {
                    &&& last_covered(ds, col as nat) == Some(c as nat)
                    &&& c < col
                    &&& i == covering_index(ds, c as int)
                    &&& i < descriptors.len()
                },
                None => last_covered(ds, col as nat) is None,
            },
        decreases row.len() - col,
    {
        let cell = row[col].as_str();
        assert(rv[col as int] == cell@);
        match descriptor_for(descriptors, col) {
            Some(i) => {
                let value = transform_value(cell, descriptors[i].delimiter);
                out.push(value);
                last = Some((col, i));
            },
            None => {
                out.push(String::from_str(cell));
            },
        }
        col = col + 1;
    }
    let ghost cells = transformed_row(ds, rv);
    assert(out.deep_view() =~= cells);
    let record = match (identifier, last) {
        (Some(p), Some((c, i))) => {
            if p < row.len() && trim_text(row[p].as_str()).unicode_len() > 0 {
                assert(rv[p as int] == row[p as int]@);
                Some(
                    CorrelationRecord {
                        identifier: row[p].clone(),
                        new_value: out[c].clone(),
                        column_name: descriptors[i].name.clone(),
                    },
                )
            } else {
                assert(p < row.len() ==> rv[p as int] == row[p as int]@);
                None
            }
        },
        _ => None,
    };
    (out, record)
}

} // verus!
