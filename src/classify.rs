use vstd::prelude::*;
use vstd::string::*;
use crate::codec::{is_nucleotide, is_nucleotide_char};
use crate::text::{contains_char, decimal, decimal_text, find_char, text_eq};

verus! {

/// Thresholds of the heuristic column scan.
#[derive(Clone, Copy, Debug)]
pub struct ClassifierConfig {
    /// How many data rows, from the first, are examined.
    pub sample_size: usize,
    /// Least length of the part after the dash of a delimited sequence.
    pub min_suffix_len: usize,
    /// Least length of a plain sequence.
    pub min_plain_len: usize,
    /// Least share, in percent, of nucleotide codes after the dash.
    pub min_nucleotide_percent: u64,
}

impl ClassifierConfig {
    /// Ten sample rows, a suffix of at least four characters of which at
    /// least 80% are nucleotides, plain sequences of at least six.
    pub fn standard() -> (r: ClassifierConfig)
        ensures
            r.sample_size == 10,
            r.min_suffix_len == 4,
            r.min_plain_len == 6,
            r.min_nucleotide_percent == 80,
    {
        ClassifierConfig {
            sample_size: 10,
            min_suffix_len: 4,
            min_plain_len: 6,
            min_nucleotide_percent: 80,
        }
    }
}

/// A column whose values are index sequences.
#[derive(Clone, Debug, PartialEq, Eq)]
pub struct ColumnDescriptor {
    pub position: usize,
    pub name: String,
    /// Whether the value is a label, a dash, then the sequence.
    pub delimiter: bool,
}

impl View for ColumnDescriptor {
    type V = (nat, Seq<char>, bool);

    open spec fn view(&self) -> (nat, Seq<char>, bool) {
        (self.position as nat, self.name@, self.delimiter)
    }
}

pub open spec fn descriptors_view(ds: Seq<ColumnDescriptor>) -> Seq<(nat, Seq<char>, bool)> {
    ds.map_values(|d: ColumnDescriptor| d@)
}

/// No two descriptors name the same column.
pub open spec fn positions_distinct(ds: Seq<(nat, Seq<char>, bool)>) -> bool {
    forall|i: int, j: int| 0 <= i < ds.len() && 0 <= j < ds.len() && i != j ==> ds[i].0 != ds[j].0
}

/// How many characters of `s` are nucleotide codes.
pub open spec fn nucleotide_count(s: Seq<char>) -> nat
    decreases s.len(),
{
    if s.len() == 0 {
        0
    } else {
        nucleotide_count(s.drop_last()) + if is_nucleotide(s.last()) { 1nat } else { 0nat }
    }
}

/// `s` holds exactly one dash, at `k`.
pub open spec fn single_dash_at(s: Seq<char>, k: int) -> bool {
    0 <= k < s.len() && s[k] == '-' && forall|j: int| 0 <= j < s.len() && j != k ==> s[j] != '-'
}

/// The part after the dash is long enough and mostly nucleotides.
pub open spec fn suffix_qualifies(cfg: ClassifierConfig, t: Seq<char>) -> bool {
    t.len() >= cfg.min_suffix_len && 100 * nucleotide_count(t) >= cfg.min_nucleotide_percent
        * t.len()
}

/// A label, one dash, then a sequence.
pub open spec fn delimited_sequence(cfg: ClassifierConfig, s: Seq<char>) -> bool {
    exists|k: int| single_dash_at(s, k) && suffix_qualifies(cfg, s.skip(k + 1))
}

/// A long enough run of nucleotide codes and nothing else.
pub open spec fn plain_sequence(cfg: ClassifierConfig, s: Seq<char>) -> bool {
    s.len() >= cfg.min_plain_len && forall|i: int| 0 <= i < s.len() ==> is_nucleotide(s[i])
}

/// What one cell says of its column: a delimited sequence column, a plain
/// one, or nothing.
pub open spec fn cell_verdict(cfg: ClassifierConfig, s: Seq<char>) -> Option<bool> {
    if delimited_sequence(cfg, s) {
        Some(true)
    } else if plain_sequence(cfg, s) {
        Some(false)
    } else {
        None
    }
}

/// The verdict of the first row of `rows` whose cell in column `col` gives one.
pub open spec fn column_verdict(cfg: ClassifierConfig, rows: Seq<Seq<Seq<char>>>, col: int) -> Option<bool>
    decreases rows.len(),
{
    if rows.len() == 0 {
        None
    } else {
        let prev = column_verdict(cfg, rows.drop_last(), col);
        if prev is Some {
            prev
        } else if 0 <= col < rows.last().len() {
            cell_verdict(cfg, rows.last()[col])
        } else {
            None
        }
    }
}

/// Counts the nucleotide codes of a string.
pub fn count_nucleotides(s: &str) -> (r: usize)
    ensures
        r == nucleotide_count(s@),
        r <= s@.len(),
{
    let n = s.unicode_len();
    let mut count: usize = 0;
    let mut i: usize = 0;
    while i < n
        invariant
            n == s@.len(),
            i <= n,
            count <= i,
            count == nucleotide_count(s@.take(i as int)),
        decreases n - i,
    {
        assert(s@.take(i + 1).drop_last() =~= s@.take(i as int));
        if is_nucleotide_char(s.get_char(i)) {
            count = count + 1;
        }
        i = i + 1;
    }
    assert(s@.take(n as int) =~= s@);
    count
}

/// Whether every character of a string is a nucleotide code.
pub fn all_nucleotides(s: &str) -> (r: bool)
    ensures
        r == forall|i: int| 0 <= i < s@.len() ==> is_nucleotide(s@[i]),
{
    let n = s.unicode_len();
    let mut i: usize = 0;
    while i < n
        invariant
            n == s@.len(),
            i <= n,
            forall|j: int| 0 <= j < i ==> is_nucleotide(s@[j]),
        decreases n - i,
    {
        if !is_nucleotide_char(s.get_char(i)) {
            return false;
        }
        i = i + 1;
    }
    true
}

/// Whether the part after a dash qualifies as a sequence.
pub fn suffix_qualifies_exec(cfg: &ClassifierConfig, t: &str) -> (r: bool)
    ensures
        r == suffix_qualifies(*cfg, t@),
{
    let len = t.unicode_len();
    if len < cfg.min_suffix_len {
        return false;
    }
    let count = count_nucleotides(t);
    let pct = cfg.min_nucleotide_percent as u128;
    let wide_len = len as u128;
    assert(pct * wide_len <= 0xffff_ffff_ffff_ffffu128 * 0xffff_ffff_ffff_ffffu128) by (nonlinear_arith)
        requires
            pct <= 0xffff_ffff_ffff_ffffu128,
            wide_len <= 0xffff_ffff_ffff_ffffu128,
    ;
    100u128 * (count as u128) >= pct * wide_len
}

/// What one cell says of its column.
pub fn cell_verdict_of(cfg: &ClassifierConfig, cell: &str) -> (r: Option<bool>)
    ensures
        r == cell_verdict(*cfg, cell@),
{
    let n = cell.unicode_len();
    match find_char(cell, '-') {
        Some(k) => {
            assert(!is_nucleotide(cell@[k as int]));
            let suffix = cell.substring_char(k + 1, n);
            assert(suffix@ =~= cell@.skip(k + 1));
            if contains_char(suffix, '-') {
                proof {
                    let m = choose|m: int| 0 <= m < suffix@.len() && suffix@[m] == '-';
                    assert(cell@[k + 1 + m] == '-');
                    assert forall|k2: int| !single_dash_at(cell@, k2) by {
                        if single_dash_at(cell@, k2) {
                            if k2 == k {
                                assert(cell@[k + 1 + m] != '-');
                            } else {
                                assert(cell@[k as int] != '-');
                            }
                        }
                    }
                }
                return None;
            }
            proof {
                assert forall|j: int| 0 <= j < cell@.len() && j != k implies cell@[j] != '-' by {
                    if j > k {
                        assert(suffix@[j - k - 1] == cell@[j]);
                    }
                }
                assert(single_dash_at(cell@, k as int));
                assert forall|k2: int| single_dash_at(cell@, k2) implies k2 == k by {
                    if k2 != k {
                        assert(cell@[k as int] != '-');
                    }
                }
            }
            if suffix_qualifies_exec(cfg, suffix) {
                Some(true)
            } else {
                None
            }
        },
        None => {
            assert forall|k2: int| !single_dash_at(cell@, k2) by {
                if single_dash_at(cell@, k2) {
                    assert(cell@.contains('-'));
                }
            }
            if n >= cfg.min_plain_len && all_nucleotides(cell) {
                Some(false)
            } else {
                None
            }
        },
    }
}

/// Once a column has a verdict, later rows do not change it.
proof fn lemma_verdict_settled(cfg: ClassifierConfig, rows: Seq<Seq<Seq<char>>>, i: int, k: int, col: int)
    requires
        0 <= i <= k <= rows.len(),
        column_verdict(cfg, rows.take(i), col) is Some,
    ensures
        column_verdict(cfg, rows.take(k), col) == column_verdict(cfg, rows.take(i), col),
    decreases k - i,
{
    if k > i {
        lemma_verdict_settled(cfg, rows, i, k - 1, col);
        assert(rows.take(k).drop_last() =~= rows.take(k - 1));
    }
}

/// The rows that the heuristic scan examines.
pub open spec fn sample_of(cfg: ClassifierConfig, rows: Seq<Seq<Seq<char>>>) -> Seq<Seq<Seq<char>>> {
    if cfg.sample_size < rows.len() {
        rows.take(cfg.sample_size as int)
    } else {
        rows
    }
}

/// The verdict on column `col` from the first `m` rows.
pub fn scan_column(cfg: &ClassifierConfig, rows: &Vec<Vec<String>>, m: usize, col: usize) -> (r: Option<bool>)
    requires
        m <= rows.len(),
    ensures
        r == column_verdict(*cfg, rows.deep_view().take(m as int), col as int),
{
    let ghost dv = rows.deep_view();
    let mut verdict: Option<bool> = None;
    let mut i: usize = 0;
    while i < m && verdict.is_none()
        invariant
            dv == rows.deep_view(),
            m <= rows.len(),
            i <= m,
            verdict == column_verdict(*cfg, dv.take(i as int), col as int),
        decreases m - i,
    {
        assert(dv.take(i + 1).drop_last() =~= dv.take(i as int));
        assert(dv.take(i + 1).last() == rows[i as int].deep_view());
        let row = &rows[i];
        if col < row.len() {
            verdict = cell_verdict_of(cfg, row[col].as_str());
        }
        i = i + 1;
    }
    if i < m {
        proof {
            lemma_verdict_settled(*cfg, dv, i as int, m as int, col as int);
        }
    }
    verdict
}

/// The name under which a column is reported: its header, or `Column_<n>`
/// with `n` its position counted from one where the header is empty.
pub open spec fn column_label(name: Seq<char>, col: nat) -> Seq<char> {
    if name.len() == 0 {
        "Column_"@ + decimal(col + 1)
    } else {
        name
    }
}

pub fn column_label_of(name: &String, col: usize) -> (r: String)
    requires
        col < usize::MAX,
    ensures
        r@ == column_label(name@, col as nat),
{
    if name.as_str().unicode_len() == 0 {
        let mut label = String::from_str("Column_");
        let number = decimal_text(col + 1);
        label.append(number.as_str());
        label
    } else {
        name.clone()
    }
}

/// The heuristic classification of the first `n` columns.
pub open spec fn detected_columns(
    cfg: ClassifierConfig,
    header: Seq<Seq<char>>,
    sample: Seq<Seq<Seq<char>>>,
    n: nat,
) -> Seq<(nat, Seq<char>, bool)>
    decreases n,
{
    if n == 0 {
        seq![]
    } else {
        let prev = detected_columns(cfg, header, sample, (n - 1) as nat);
        match column_verdict(cfg, sample, n - 1) {
            Some(d) => prev.push(((n - 1) as nat, column_label(header[n - 1], (n - 1) as nat), d)),
            None => prev,
        }
    }
}

proof fn lemma_detected_positions(
    cfg: ClassifierConfig,
    header: Seq<Seq<char>>,
    sample: Seq<Seq<Seq<char>>>,
    n: nat,
)
    ensures
        positions_distinct(detected_columns(cfg, header, sample, n)),
        forall|i: int| 0 <= i < detected_columns(cfg, header, sample, n).len()
            ==> detected_columns(cfg, header, sample, n)[i].0 < n,
    decreases n,
{
    if n > 0 {
        lemma_detected_positions(cfg, header, sample, (n - 1) as nat);
    }
}

/// Scans the sample rows for columns that hold index sequences.
pub fn detect_sequence_columns(
    header: &Vec<String>,
    rows: &Vec<Vec<String>>,
    cfg: &ClassifierConfig,
) -> (r: Vec<ColumnDescriptor>)
    ensures
        descriptors_view(r@) == detected_columns(
            *cfg,
            header.deep_view(),
            sample_of(*cfg, rows.deep_view()),
            header.len() as nat,
        ),
{
    let m: usize = if cfg.sample_size < rows.len() { cfg.sample_size } else { rows.len() };
    let ghost sample = sample_of(*cfg, rows.deep_view());
    assert(rows.deep_view().take(m as int) =~= sample);
    let mut out: Vec<ColumnDescriptor> = Vec::new();
    let mut col: usize = 0;
    while col < header.len()
        invariant
            m <= rows.len(),
            rows.deep_view().take(m as int) == sample,
            col <= header.len(),
            descriptors_view(out@) == detected_columns(*cfg, header.deep_view(), sample, col as nat),
        decreases header.len() - col,
    {
        let verdict = scan_column(cfg, rows, m, col);
        let ghost before = out@;
        if let Some(d) = verdict {
            let name = column_label_of(&header[col], col);
            out.push(ColumnDescriptor { position: col, name, delimiter: d });
            assert(descriptors_view(out@) =~= descriptors_view(before).push(out@.last()@));
        }
        col = col + 1;
    }
    out
}

/// The header names that mark a sequence column without any scan, in the
/// order in which they are looked for, each with its delimiter flag.
pub open spec fn canonical_columns() -> Seq<(Seq<char>, bool)> {
    seq![("IndexNtSequence"@, true), ("IndexNtSequence2"@, false), ("Index 2"@, false), ("Index"@, true)]
}

pub fn canonical_column(k: usize) -> (r: (&'static str, bool))
    requires
        k < 4,
    ensures
        r.0@ == canonical_columns()[k as int].0,
        r.1 == canonical_columns()[k as int].1,
{
    if k == 0 {
        ("IndexNtSequence", true)
    } else if k == 1 {
        ("IndexNtSequence2", false)
    } else if k == 2 {
        ("Index 2", false)
    } else {
        ("Index", true)
    }
}

/// The first of the first `n` header cells that satisfies `wanted`.
pub open spec fn first_position(header: Seq<Seq<char>>, wanted: spec_fn(Seq<char>) -> bool, n: nat) -> Option<nat>
    decreases n,
{
    if n == 0 {
        None
    } else {
        match first_position(header, wanted, (n - 1) as nat) {
            Some(p) => Some(p),
            None => if wanted(header[n - 1]) {
                Some((n - 1) as nat)
            } else {
                None
            },
        }
    }
}

proof fn lemma_first_position(header: Seq<Seq<char>>, wanted: spec_fn(Seq<char>) -> bool, n: nat)
    ensures
        match first_position(header, wanted, n) {
            Some(p) => p < n && wanted(header[p as int]),
            None => forall|j: int| 0 <= j < n ==> !wanted(#[trigger] header[j]),
        },
    decreases n,
{
    if n > 0 {
        lemma_first_position(header, wanted, (n - 1) as nat);
    }
}

proof fn lemma_first_position_stable(header: Seq<Seq<char>>, wanted: spec_fn(Seq<char>) -> bool, k: nat, n: nat)
    requires
        k <= n,
        first_position(header, wanted, k) is Some,
    ensures
        first_position(header, wanted, n) == first_position(header, wanted, k),
    decreases n - k,
{
    if n > k {
        lemma_first_position_stable(header, wanted, k, (n - 1) as nat);
    }
}

/// Matches a header cell equal to `name`.
pub open spec fn named(name: Seq<char>) -> spec_fn(Seq<char>) -> bool {
    |s: Seq<char>| s == name
}

/// Matches a header cell that names the identifier column.
pub open spec fn identifier_named() -> spec_fn(Seq<char>) -> bool {
    |s: Seq<char>| is_identifier_name(s)
}

pub open spec fn option_nat(r: Option<usize>) -> Option<nat> {
    match r {
        Some(p) => Some(p as nat),
        None => None,
    }
}

/// The position of the first header cell equal to `name`.
pub fn position_of(header: &Vec<String>, name: &str) -> (r: Option<usize>)
    ensures
        option_nat(r) == first_position(header.deep_view(), named(name@), header.len() as nat),
{
    let ghost wanted = named(name@);
    let mut i: usize = 0;
    while i < header.len()
        invariant
            i <= header.len(),
            wanted == named(name@),
            first_position(header.deep_view(), wanted, i as nat) is None,
        decreases header.len() - i,
    {
        if text_eq(header[i].as_str(), name) {
            proof {
                assert(header.deep_view()[i as int] == header[i as int]@);
                lemma_first_position_stable(header.deep_view(), wanted, (i + 1) as nat, header.len() as nat);
            }
            return Some(i);
        }
        i = i + 1;
    }
    None
}

/// The descriptors of the canonical names among the first `k` that the header holds.
pub open spec fn canonical_descriptors(header: Seq<Seq<char>>, k: nat) -> Seq<(nat, Seq<char>, bool)>
    decreases k,
{
    if k == 0 {
        seq![]
    } else {
        let prev = canonical_descriptors(header, (k - 1) as nat);
        let entry = canonical_columns()[k - 1];
        match first_position(header, named(entry.0), header.len()) {
            Some(p) => prev.push((p, entry.0, entry.1)),
            None => prev,
        }
    }
}

proof fn lemma_canonical_names_distinct()
    ensures
        forall|a: int, b: int|
            0 <= a < 4 && 0 <= b < 4 && a != b ==> canonical_columns()[a].0 != canonical_columns()[b].0,
{
    reveal_strlit("IndexNtSequence");
    reveal_strlit("IndexNtSequence2");
    reveal_strlit("Index 2");
    reveal_strlit("Index");
    assert(canonical_columns()[0].0.len() == 15);
    assert(canonical_columns()[1].0.len() == 16);
    assert(canonical_columns()[2].0.len() == 7);
    assert(canonical_columns()[3].0.len() == 5);
}

proof fn lemma_canonical_shape(header: Seq<Seq<char>>, k: nat)
    requires
        k <= 4,
    ensures
        forall|i: int| 0 <= i < canonical_descriptors(header, k).len() ==> {
            let d = #[trigger] canonical_descriptors(header, k)[i];
            &&& d.0 < header.len()
            &&& header[d.0 as int] == d.1
            &&& exists|e: int| 0 <= e < k && canonical_columns()[e].0 == d.1
        },
        positions_distinct(canonical_descriptors(header, k)),
    decreases k,
{
    if k > 0 {
        lemma_canonical_shape(header, (k - 1) as nat);
        let entry = canonical_columns()[k - 1];
        let wanted = named(entry.0);
        lemma_first_position(header, wanted, header.len());
        lemma_canonical_names_distinct();
        let prev = canonical_descriptors(header, (k - 1) as nat);
        let cur = canonical_descriptors(header, k);
        assert forall|i: int| 0 <= i < prev.len() implies prev[i].1 != entry.0 by {
            let d = prev[i];
            let e = choose|e: int| 0 <= e < k - 1 && canonical_columns()[e].0 == d.1;
        }
        assert forall|i: int| 0 <= i < cur.len() implies ({
            let d = #[trigger] cur[i];
            &&& d.0 < header.len()
            &&& header[d.0 as int] == d.1
            &&& exists|e: int| 0 <= e < k && canonical_columns()[e].0 == d.1
        }) by {
            if i < prev.len() {
                assert(cur[i] == prev[i]);
                let e = choose|e: int| 0 <= e < k - 1 && canonical_columns()[e].0 == prev[i].1;
                assert(0 <= e < k && canonical_columns()[e].0 == cur[i].1);
            } else {
                assert(canonical_columns()[k - 1].0 == cur[i].1);
            }
        }
    }
}

/// The descriptors of the canonical names that the header holds.
pub fn canonical_sequence_columns(header: &Vec<String>) -> (r: Vec<ColumnDescriptor>)
    ensures
        descriptors_view(r@) == canonical_descriptors(header.deep_view(), 4),
{
    let mut out: Vec<ColumnDescriptor> = Vec::new();
    let mut k: usize = 0;
    while k < 4
        invariant
            k <= 4,
            descriptors_view(out@) == canonical_descriptors(header.deep_view(), k as nat),
        decreases 4 - k,
    {
        let (name, delimiter) = canonical_column(k);
        let ghost before = out@;
        if let Some(p) = position_of(header, name) {
            out.push(ColumnDescriptor { position: p, name: String::from_str(name), delimiter });
            assert(descriptors_view(out@) =~= descriptors_view(before).push(out@.last()@));
        }
        k = k + 1;
    }
    out
}

/// The sequence columns of a document: those with a canonical name if the
/// header holds any, else those that the heuristic scan finds.
pub open spec fn classification(
    cfg: ClassifierConfig,
    header: Seq<Seq<char>>,
    rows: Seq<Seq<Seq<char>>>,
) -> Seq<(nat, Seq<char>, bool)> {
    let canonical = canonical_descriptors(header, 4);
    if canonical.len() > 0 {
        canonical
    } else {
        detected_columns(cfg, header, sample_of(cfg, rows), header.len() as nat)
    }
}

/// Classification never names a column twice.
pub proof fn classification_positions_distinct(
    cfg: ClassifierConfig,
    header: Seq<Seq<char>>,
    rows: Seq<Seq<Seq<char>>>,
)
    ensures
        positions_distinct(classification(cfg, header, rows)),
{
    lemma_canonical_shape(header, 4);
    lemma_detected_positions(cfg, header, sample_of(cfg, rows), header.len() as nat);
}

/// Determines which columns hold index sequences, from the header and the
/// first data rows.
pub fn classify_columns(
    header: &Vec<String>,
    rows: &Vec<Vec<String>>,
    cfg: &ClassifierConfig,
) -> (r: Vec<ColumnDescriptor>)
    ensures
        descriptors_view(r@) == classification(*cfg, header.deep_view(), rows.deep_view()),
        positions_distinct(descriptors_view(r@)),
{
    proof {
        classification_positions_distinct(*cfg, header.deep_view(), rows.deep_view());
    }
    let canonical = canonical_sequence_columns(header);
    if canonical.len() > 0 {
        canonical
    } else {
        detect_sequence_columns(header, rows, cfg)
    }
}

/// A header name that marks the row identifier column.
pub open spec fn is_identifier_name(s: Seq<char>) -> bool {
    s == "Id"@ || s == "Sample ID"@
}

/// The position of the identifier column: the first header cell named
/// `Id` or `Sample ID`.
pub fn find_identifier_column(header: &Vec<String>) -> (r: Option<usize>)
    ensures
        option_nat(r) == first_position(header.deep_view(), identifier_named(), header.len() as nat),
{
    let ghost wanted = identifier_named();
    let mut i: usize = 0;
    while i < header.len()
        invariant
            i <= header.len(),
            wanted == identifier_named(),
            first_position(header.deep_view(), wanted, i as nat) is None,
        decreases header.len() - i,
    {
        let cell = header[i].as_str();
        if text_eq(cell, "Id") || text_eq(cell, "Sample ID") {
            proof {
                assert(header.deep_view()[i as int] == header[i as int]@);
                lemma_first_position_stable(header.deep_view(), wanted, (i + 1) as nat, header.len() as nat);
            }
            return Some(i);
        }
        i = i + 1;
    }
    None
}

/// A header that holds `IndexNtSequence` is classified by its canonical
/// names alone, whatever the data rows hold, and the first descriptor is
/// the first column of that name, with the delimiter flag set.
pub proof fn canonical_name_decides(
    cfg: ClassifierConfig,
    header: Seq<Seq<char>>,
    rows: Seq<Seq<Seq<char>>>,
    p: int,
)
    requires
        0 <= p < header.len(),
        header[p] == "IndexNtSequence"@,
        forall|j: int| 0 <= j < p ==> header[j] != "IndexNtSequence"@,
    ensures
        classification(cfg, header, rows) == canonical_descriptors(header, 4),
        classification(cfg, header, rows).len() > 0,
        classification(cfg, header, rows)[0] == (p as nat, "IndexNtSequence"@, true),
{
    let wanted = named("IndexNtSequence"@);
    lemma_first_position(header, wanted, header.len());
    let q = first_position(header, wanted, header.len());
    lemma_first_position_stable(header, wanted, (p + 1) as nat, header.len());
    assert(first_position(header, wanted, p as nat) is None) by {
        lemma_first_position(header, wanted, p as nat);
        if first_position(header, wanted, p as nat) is Some {
            let r = first_position(header, wanted, p as nat)->0;
            assert(header[r as int] == "IndexNtSequence"@);
        }
    }
    assert(q == Some(p as nat));
    assert(canonical_descriptors(header, 0) =~= seq![]);
    assert(canonical_descriptors(header, 1) =~= seq![(p as nat, "IndexNtSequence"@, true)]);
    lemma_canonical_prefix(header, 1, 4);
}

/// Each canonical name looked at later only adds descriptors at the end.
proof fn lemma_canonical_prefix(header: Seq<Seq<char>>, k: nat, n: nat)
    requires
        k <= n,
    ensures
        canonical_descriptors(header, n).len() >= canonical_descriptors(header, k).len(),
        forall|i: int| 0 <= i < canonical_descriptors(header, k).len()
            ==> canonical_descriptors(header, n)[i] == canonical_descriptors(header, k)[i],
    decreases n - k,
{
    if n > k {
        lemma_canonical_prefix(header, k, (n - 1) as nat);
    }
}

/// A column that a scan of the sample gives a verdict for is reported with it.
proof fn lemma_detected_contains(
    cfg: ClassifierConfig,
    header: Seq<Seq<char>>,
    sample: Seq<Seq<Seq<char>>>,
    c: int,
    n: nat,
)
    requires
        0 <= c < n,
        column_verdict(cfg, sample, c) is Some,
    ensures
        exists|i: int| 0 <= i < detected_columns(cfg, header, sample, n).len()
            && detected_columns(cfg, header, sample, n)[i] == (c as nat, column_label(header[c], c as nat), column_verdict(cfg, sample, c)->0),
    decreases n,
{
    if c < n - 1 {
        lemma_detected_contains(cfg, header, sample, c, (n - 1) as nat);
        let prev = detected_columns(cfg, header, sample, (n - 1) as nat);
        let i = choose|i: int| 0 <= i < prev.len()
            && prev[i] == (c as nat, column_label(header[c], c as nat), column_verdict(cfg, sample, c)->0);
        assert(detected_columns(cfg, header, sample, n)[i] == prev[i]);
    } else {
        let cur = detected_columns(cfg, header, sample, n);
        assert(cur[cur.len() - 1] == (c as nat, column_label(header[c], c as nat), column_verdict(cfg, sample, c)->0));
    }
}

/// Where the header holds no canonical name and the first data row holds
/// `AATTCCGG` in column three, that column is reported as a plain sequence
/// column (with thresholds under which an eight-letter sequence counts).
pub proof fn plain_sequence_detected(
    cfg: ClassifierConfig,
    header: Seq<Seq<char>>,
    rows: Seq<Seq<Seq<char>>>,
)
    requires
        canonical_descriptors(header, 4).len() == 0,
        header.len() > 3,
        rows.len() > 0,
        rows[0].len() > 3,
        rows[0][3] == "AATTCCGG"@,
        cfg.sample_size > 0,
        cfg.min_plain_len <= 8,
    ensures
        exists|i: int| 0 <= i < classification(cfg, header, rows).len()
            && classification(cfg, header, rows)[i] == (3nat, column_label(header[3], 3), false),
{
    reveal_strlit("AATTCCGG");
    let cell = rows[0][3];
    assert(cell.len() == 8);
    assert forall|k: int| !single_dash_at(cell, k) by {
        if 0 <= k < cell.len() {
            assert(is_nucleotide(cell[k]));
        }
    }
    assert(plain_sequence(cfg, cell));
    assert(cell_verdict(cfg, cell) == Some(false));
    let sample = sample_of(cfg, rows);
    assert(sample.take(1).drop_last() =~= seq![]);
    assert(column_verdict(cfg, sample.take(1).drop_last(), 3) is None);
    assert(sample.take(1).last() == rows[0]);
    assert(column_verdict(cfg, sample.take(1), 3) == Some(false));
    assert(sample.len() >= 1);
    lemma_verdict_settled(cfg, sample, 1, sample.len() as int, 3);
    assert(sample.take(sample.len() as int) =~= sample);
    assert(column_verdict(cfg, sample, 3) == Some(false));
    lemma_detected_contains(cfg, header, sample, 3, header.len() as nat);
    let found = detected_columns(cfg, header, sample, header.len() as nat);
    assert(classification(cfg, header, rows) == found);
    let i = choose|i: int| 0 <= i < found.len() && found[i] == (3nat, column_label(header[3], 3), false);
    assert(classification(cfg, header, rows)[i] == (3nat, column_label(header[3], 3), false));
}

} // verus!
