//! The rows of a CSV source as the samples of its series.

use crate::csv_import;
use crate::csv_import::{
    CsvDraft, CsvDraftView, CsvTable, CsvTableView, PlannedColumn, PlannedColumnView,
    CSV_BATCH_ROWS,
};
use crate::import;
use crate::import::{ImportError, ImportErrorCode, ImportErrorView};
use crate::table;
use crate::table::Table;
use crate::text;
use vstd::prelude::*;

verus! {

/// The value of a field, if it is not blank. `number` holds the bits of the IEEE 754 double that
/// the trimmed field reads as, if that is a finite number.
pub open spec fn scalar(raw: Seq<char>, number: Option<u64>) -> Result<
    Option<u64>,
    ImportErrorView,
> {
    let trimmed = text::trim(raw);
    if trimmed.len() == 0 {
        Ok(None)
    } else if number is Some {
        Ok(number)
    } else {
        Err(
            import::import_error(
                ImportErrorCode::ValidationFailed,
                "A mapped CSV value is not a finite number."@,
                "Failed to parse CSV scalar "@ + text::debug_text(trimmed),
            ),
        )
    }
}

pub fn parse_optional_scalar(raw: &str, number: Option<u64>) -> (r: Result<
    Option<u64>,
    ImportError,
>)
    ensures
        import::outcome(r) == scalar(raw@, number),
{
    let trimmed = text::trimmed(raw);
    if text::is_blank(raw) {
        return Ok(None);
    }
    match number {
        Some(bits) => Ok(Some(bits)),
        None => {
            let shown = text::quoted(trimmed.as_str());
            Err(
                ImportError::new(
                    ImportErrorCode::ValidationFailed,
                    "A mapped CSV value is not a finite number.",
                    text::line("Failed to parse CSV scalar ").add(shown.as_str()).done(),
                ),
            )
        },
    }
}

/// The time of a row and its values, one for each planned column.
#[derive(Debug)]
pub struct CsvRow {
    pub time: i64,
    pub values: Vec<Option<u64>>,
}

#[verifier::ext_equal]
pub struct CsvRowView {
    pub time: i64,
    pub values: Seq<Option<u64>>,
}

impl View for CsvRow {
    type V = CsvRowView;

    open spec fn view(&self) -> CsvRowView {
        CsvRowView { time: self.time, values: self.values@ }
    }
}

/// A field of a row, or nothing beyond its end.
pub open spec fn field(row: Seq<Seq<char>>, i: usize) -> Seq<char> {
    if i < row.len() {
        row[i as int]
    } else {
        ""@
    }
}

pub open spec fn number_at(numbers: Seq<Option<u64>>, i: usize) -> Option<u64> {
    if i < numbers.len() {
        numbers[i as int]
    } else {
        None
    }
}

/// The values of a row for the planned columns from `i` on.
pub open spec fn values_from(
    row: Seq<Seq<char>>,
    numbers: Seq<Option<u64>>,
    columns: Seq<PlannedColumnView>,
    i: int,
    done: Seq<Option<u64>>,
) -> Result<Seq<Option<u64>>, ImportErrorView>
    decreases columns.len() - i,
{
    if i < 0 || i >= columns.len() {
        Ok(done)
    } else {
        let at = columns[i].source_index;
        match scalar(field(row, at), number_at(numbers, at)) {
            Ok(value) => values_from(row, numbers, columns, i + 1, done.push(value)),
            Err(e) => Err(e),
        }
    }
}

pub open spec fn values_view(r: Result<Vec<Option<u64>>, ImportError>) -> Result<
    Seq<Option<u64>>,
    ImportErrorView,
> {
    match r {
        Ok(v) => Ok(v@),
        Err(e) => Err(e@),
    }
}

fn row_values(row: &Vec<String>, numbers: &Vec<Option<u64>>, columns: &Vec<PlannedColumn>) -> (r:
    Result<Vec<Option<u64>>, ImportError>)
    ensures
        values_view(r) == values_from(
            table::views(row@),
            numbers@,
            table::views(columns@),
            0,
            Seq::empty(),
        ),
{
    let ghost fields = table::views(row@);
    let ghost all = table::views(columns@);
    let mut done: Vec<Option<u64>> = Vec::new();
    let mut i: usize = 0;
    while i < columns.len()
        invariant
            i <= columns@.len(),
            fields == table::views(row@),
            all == table::views(columns@),
            values_from(fields, numbers@, all, 0, Seq::empty()) == values_from(
                fields,
                numbers@,
                all,
                i as int,
                done@,
            ),
        decreases columns@.len() - i,
    {
        assert(all[i as int] == columns@[i as int]@);
        let at: usize = columns[i].source_index;
        let raw = if at < row.len() {
            assert(fields[at as int] == row@[at as int]@);
            row[at].as_str()
        } else {
            ""
        };
        let number = if at < numbers.len() {
            numbers[at]
        } else {
            None
        };
        match parse_optional_scalar(raw, number) {
            Ok(value) => {
                done.push(value);
            },
            Err(e) => {
                return Err(e);
            },
        }
        i = i + 1;
    }
    Ok(done)
}

/// The time of the row with a number: that of its timeline field, or its number.
pub open spec fn time_of(d: CsvDraftView, row: Seq<Seq<char>>, index: int) -> Result<
    int,
    ImportErrorView,
> {
    match d.timeline_column {
        None => Ok(index),
        Some(c) => {
            let raw = field(row, c as usize);
            match csv_import::timeline_value(raw, d.timeline_kind, d.timeline_unit) {
                Some(v) => Ok(v),
                None => Err(csv_import::timeline_failure(raw, d.timeline_kind, d.timeline_unit)),
            }
        },
    }
}

pub open spec fn too_many_rows() -> ImportErrorView {
    import::import_error(
        ImportErrorCode::ResourceLimitExceeded,
        "The CSV contains too many rows."@,
        "CSV row sequence overflowed i64"@,
    )
}

pub open spec fn numbers_at(numbers: Seq<Seq<Option<u64>>>, i: int) -> Seq<Option<u64>> {
    if i < numbers.len() {
        numbers[i]
    } else {
        Seq::empty()
    }
}

/// The rows from `i` on.
pub open spec fn rows_from(
    t: CsvTableView,
    numbers: Seq<Seq<Option<u64>>>,
    d: CsvDraftView,
    i: int,
    done: Seq<CsvRowView>,
) -> Result<Seq<CsvRowView>, ImportErrorView>
    decreases t.rows.len() - i,
{
    if i < 0 || i >= t.rows.len() {
        Ok(done)
    } else {
        match time_of(d, t.rows[i], i) {
            Err(e) => Err(e),
            Ok(time) => match values_from(
                t.rows[i],
                numbers_at(numbers, i),
                d.columns,
                0,
                Seq::empty(),
            ) {
                Err(e) => Err(e),
                Ok(values) => if i == i64::MAX {
                    Err(too_many_rows())
                } else {
                    rows_from(
                        t,
                        numbers,
                        d,
                        i + 1,
                        done.push(CsvRowView { time: time as i64, values }),
                    )
                },
            },
        }
    }
}

pub open spec fn number_views(v: Seq<Vec<Option<u64>>>) -> Seq<Seq<Option<u64>>> {
    v.map_values(|n: Vec<Option<u64>>| n@)
}

pub open spec fn rows_view(r: Result<Vec<CsvRow>, ImportError>) -> Result<
    Seq<CsvRowView>,
    ImportErrorView,
> {
    match r {
        Ok(v) => Ok(table::views(v@)),
        Err(e) => Err(e@),
    }
}

/// Reads the rows of a CSV source. `numbers` holds the number that each field reads as.
pub fn read_rows(t: &CsvTable, numbers: &Vec<Vec<Option<u64>>>, draft: &CsvDraft) -> (r: Result<
    Vec<CsvRow>,
    ImportError,
>)
    ensures
        rows_view(r) == rows_from(t@, number_views(numbers@), draft@, 0, Seq::empty()),
{
    let ghost all = number_views(numbers@);
    let empty: Vec<Option<u64>> = Vec::new();
    let mut done: Vec<CsvRow> = Vec::new();
    let mut i: usize = 0;
    proof {
        assert(table::views(done@) =~= Seq::<CsvRowView>::empty());
    }
    while i < t.rows.len()
        invariant
            i <= t.rows@.len(),
            i <= i64::MAX,
            empty@ == Seq::<Option<u64>>::empty(),
            all == number_views(numbers@),
            rows_from(t@, all, draft@, 0, Seq::empty()) == rows_from(
                t@,
                all,
                draft@,
                i as int,
                table::views(done@),
            ),
        decreases t.rows@.len() - i,
    {
        let row = &t.rows[i];
        assert(t@.rows[i as int] == table::views(row@));
        let found = if i < numbers.len() {
            assert(all[i as int] == numbers@[i as int]@);
            &numbers[i]
        } else {
            &empty
        };
        assert(found@ == numbers_at(all, i as int));
        let time: i64 = match csv_import::row_time(draft, row, i as i64) {
            Ok(v) => v,
            Err(e) => {
                return Err(e);
            },
        };
        let values = match row_values(row, found, &draft.columns) {
            Ok(v) => v,
            Err(e) => {
                return Err(e);
            },
        };
        if i as i64 == i64::MAX {
            return Err(
                ImportError::new(
                    ImportErrorCode::ResourceLimitExceeded,
                    "The CSV contains too many rows.",
                    "CSV row sequence overflowed i64".to_owned(),
                ),
            );
        }
        let one = CsvRow { time, values };
        proof {
            table::lemma_views_push(done@, one);
        }
        done.push(one);
        i = i + 1;
    }
    Ok(done)
}

/// A chunk of samples of one series.
#[derive(Debug)]
pub struct CsvChunk {
    /// Which planned column the samples are from.
    pub column: usize,
    /// The times and the bits of the values.
    pub samples: Vec<(i64, u64)>,
}

#[verifier::ext_equal]
pub struct CsvChunkView {
    pub column: int,
    pub samples: Seq<(i64, u64)>,
}

impl View for CsvChunk {
    type V = CsvChunkView;

    open spec fn view(&self) -> CsvChunkView {
        CsvChunkView { column: self.column as int, samples: self.samples@ }
    }
}

/// The samples of a column in the rows between two.
pub open spec fn samples(rows: Seq<CsvRowView>, column: int, from: int, to: int) -> Seq<(i64, u64)>
    decreases to - from,
{
    if to <= from {
        Seq::empty()
    } else {
        let before = samples(rows, column, from, to - 1);
        let row = rows[to - 1];
        if 0 <= column < row.values.len() && row.values[column] is Some {
            before.push((row.time, row.values[column]->Some_0))
        } else {
            before
        }
    }
}

/// The chunks of the first columns of the rows between two: one for each column with samples.
pub open spec fn batch(rows: Seq<CsvRowView>, columns: int, from: int, to: int) -> Seq<CsvChunkView>
    decreases columns,
{
    if columns <= 0 {
        Seq::empty()
    } else {
        let before = batch(rows, columns - 1, from, to);
        let found = samples(rows, columns - 1, from, to);
        if found.len() == 0 {
            before
        } else {
            before.push(CsvChunkView { column: columns - 1, samples: found })
        }
    }
}

/// Where the batch ends that starts at a row.
pub open spec fn batch_end(rows: int, from: int) -> int {
    if from + CSV_BATCH_ROWS <= rows {
        from + CSV_BATCH_ROWS
    } else {
        rows
    }
}

/// The chunks of all rows from one on, batch by batch.
pub open spec fn batches(rows: Seq<CsvRowView>, columns: int, from: int) -> Seq<CsvChunkView>
    decreases rows.len() - from,
{
    if from < 0 || from >= rows.len() {
        Seq::empty()
    } else {
        let to = batch_end(rows.len() as int, from);
        batch(rows, columns, from, to) + batches(rows, columns, to)
    }
}

fn column_samples(rows: &Vec<CsvRow>, column: usize, from: usize, to: usize) -> (r: Vec<(i64, u64)>)
    requires
        from <= to <= rows@.len(),
    ensures
        r@ == samples(table::views(rows@), column as int, from as int, to as int),
{
    let ghost all = table::views(rows@);
    let mut r: Vec<(i64, u64)> = Vec::new();
    let mut i: usize = from;
    while i < to
        invariant
            from <= i <= to <= rows@.len(),
            all == table::views(rows@),
            r@ == samples(all, column as int, from as int, i as int),
        decreases to - i,
    {
        assert(all[i as int] == rows@[i as int]@);
        let row = &rows[i];
        if column < row.values.len() {
            match row.values[column] {
                Some(bits) => {
                    r.push((row.time, bits));
                },
                None => {},
            }
        }
        i = i + 1;
    }
    r
}

fn append_csv_batch(
    done: &mut Vec<CsvChunk>,
    rows: &Vec<CsvRow>,
    columns: usize,
    from: usize,
    to: usize,
)
    requires
        from <= to <= rows@.len(),
    ensures
        table::views(final(done)@) == table::views(old(done)@) + batch(
            table::views(rows@),
            columns as int,
            from as int,
            to as int,
        ),
{
    let ghost all = table::views(rows@);
    let ghost start = table::views(done@);
    let mut c: usize = 0;
    proof {
        assert(start + batch(all, 0, from as int, to as int) =~= start);
    }
    while c < columns
        invariant
            c <= columns,
            from <= to <= rows@.len(),
            all == table::views(rows@),
            start == table::views(old(done)@),
            table::views(done@) == start + batch(all, c as int, from as int, to as int),
        decreases columns - c,
    {
        let found = column_samples(rows, c, from, to);
        let ghost before = batch(all, c as int, from as int, to as int);
        if found.len() > 0 {
            let one = CsvChunk { column: c, samples: found };
            proof {
                table::lemma_views_push(done@, one);
                assert((start + before).push(one@) =~= start + before.push(one@));
            }
            done.push(one);
        }
        c = c + 1;
    }
}

/// Turns rows into the chunks of their series, a batch of rows at a time.
pub fn chunk_rows(rows: &Vec<CsvRow>, columns: usize) -> (r: Vec<CsvChunk>)
    ensures
        table::views(r@) == batches(table::views(rows@), columns as int, 0),
{
    let ghost all = table::views(rows@);
    let mut done: Vec<CsvChunk> = Vec::new();
    let mut from: usize = 0;
    let total: usize = rows.len();
    proof {
        assert(table::views(done@) + batches(all, columns as int, 0) =~= batches(
            all,
            columns as int,
            0,
        ));
    }
    while from < total
        invariant
            from <= total,
            total == rows@.len(),
            all == table::views(rows@),
            table::views(done@) + batches(all, columns as int, from as int) == batches(
                all,
                columns as int,
                0,
            ),
        decreases total - from,
    {
        let to: usize = if total - from >= CSV_BATCH_ROWS {
            from + CSV_BATCH_ROWS
        } else {
            total
        };
        let ghost before = table::views(done@);
        append_csv_batch(&mut done, rows, columns, from, to);
        proof {
            let part = batch(all, columns as int, from as int, to as int);
            let rest = batches(all, columns as int, to as int);
            assert(before + (part + rest) =~= (before + part) + rest);
        }
        from = to;
    }
    proof {
        assert(table::views(done@) + Seq::<CsvChunkView>::empty() =~= table::views(done@));
    }
    done
}

/// Frames per second.
#[derive(Debug)]
pub struct FrameRate {
    /// The bits of an IEEE 754 double.
    pub bits: u64,
}

impl View for FrameRate {
    type V = u64;

    open spec fn view(&self) -> u64 {
        self.bits
    }
}

/// What a CSV source becomes.
#[derive(Debug)]
pub struct CsvImportSummary {
    pub default_timeline: String,
    /// The frame rates of timelines.
    pub fps_hints: Table<FrameRate>,
    pub topics: Vec<String>,
    pub warnings: Vec<String>,
}

pub open spec fn source_names(columns: Seq<PlannedColumnView>) -> Seq<Seq<char>> {
    columns.map_values(|c: PlannedColumnView| c.source_name)
}

/// What a plan says of the recording; `warnings` are all its warnings.
pub fn summarize(draft: &CsvDraft, warnings: Vec<String>) -> (r: CsvImportSummary)
    ensures
        r.default_timeline@ == draft@.timeline_name,
        r.fps_hints@ == match draft@.fps {
            Some(bits) => Map::<Seq<char>, u64>::empty().insert(draft@.timeline_name, bits),
            None => Map::empty(),
        },
        table::views(r.topics@) == source_names(draft@.columns),
        r.warnings == warnings,
{
    let mut fps_hints: Table<FrameRate> = Table::new();
    match draft.fps {
        Some(bits) => {
            let _ = fps_hints.insert(draft.timeline_name.clone(), FrameRate { bits });
        },
        None => {},
    }
    let pick = |c: &PlannedColumn| -> (s: String)
        ensures
            s@ == c@.source_name,
        { c.source_name.clone() };
    let topics = table::texts_of(
        &draft.columns,
        pick,
        Ghost(|c: PlannedColumnView| c.source_name),
    );
    CsvImportSummary {
        default_timeline: draft.timeline_name.clone(),
        fps_hints,
        topics,
        warnings,
    }
}

/// Batches split the rows and lose nothing: the samples of a column over two neighbouring ranges
/// of rows are those over both.
pub proof fn law_batches_split_samples(
    rows: Seq<CsvRowView>,
    column: int,
    from: int,
    middle: int,
    to: int,
)
    requires
        from <= middle <= to,
    ensures
        samples(rows, column, from, to) == samples(rows, column, from, middle) + samples(
            rows,
            column,
            middle,
            to,
        ),
    decreases to - middle,
{
    if middle < to {
        law_batches_split_samples(rows, column, from, middle, to - 1);
    }
    assert(samples(rows, column, from, to) =~= samples(rows, column, from, middle) + samples(
        rows,
        column,
        middle,
        to,
    ));
}
/// What a CSV import hands to the encoder, and what it says of the recording.
#[derive(Debug)]
pub struct CsvImport {
    pub chunks: Vec<CsvChunk>,
    pub summary: CsvImportSummary,
}

/// Imports a CSV source under its plan: every series gets an entity path of its own, every row is
/// read, and the samples are put into batches.
pub fn import_csv(
    t: &CsvTable,
    numbers: &Vec<Vec<Option<u64>>>,
    draft: &CsvDraft,
    entity_paths: &Vec<String>,
) -> (r: Result<CsvImport, ImportError>)
    ensures
        match csv_import::paths_failure_from(table::views(entity_paths@), 0) {
            Some(e) => r matches Err(f) && f@ == e,
            None => match rows_from(t@, number_views(numbers@), draft@, 0, Seq::empty()) {
                Err(e) => r matches Err(f) && f@ == e,
                Ok(rows) => {
                    &&& r is Ok
                    &&& table::views(r->Ok_0.chunks@) == batches(
                        rows,
                        draft@.columns.len() as int,
                        0,
                    )
                    &&& r->Ok_0.summary.default_timeline@ == draft@.timeline_name
                    &&& r->Ok_0.summary.fps_hints@ == match draft@.fps {
                        Some(bits) => Map::<Seq<char>, u64>::empty().insert(
                            draft@.timeline_name,
                            bits,
                        ),
                        None => Map::empty(),
                    }
                    &&& table::views(r->Ok_0.summary.topics@) == source_names(draft@.columns)
                    &&& table::views(r->Ok_0.summary.warnings@) == draft@.warnings + draft@.skipped
                },
            },
        },
{
    let warnings = match csv_import::finish_plan(draft, entity_paths) {
        Ok(warnings) => warnings,
        Err(e) => {
            return Err(e);
        },
    };
    let rows = match read_rows(t, numbers, draft) {
        Ok(rows) => rows,
        Err(e) => {
            return Err(e);
        },
    };
    let chunks = chunk_rows(&rows, draft.columns.len());
    Ok(CsvImport { chunks, summary: summarize(draft, warnings) })
}

proof fn lemma_values(
    row: Seq<Seq<char>>,
    numbers: Seq<Option<u64>>,
    columns: Seq<PlannedColumnView>,
    i: int,
    done: Seq<Option<u64>>,
)
    requires
        0 <= i <= columns.len(),
        done.len() == i,
        values_from(row, numbers, columns, i, done) is Ok,
    ensures
        ({
            let out = values_from(row, numbers, columns, i, done)->Ok_0;
            &&& out.len() == columns.len()
            &&& forall|k: int| 0 <= k < i ==> (#[trigger] out[k]) == done[k]
            &&& forall|k: int|
                i <= k < columns.len() ==> Ok::<Option<u64>, ImportErrorView>(#[trigger] out[k])
                    == scalar(
                    field(row, columns[k].source_index),
                    number_at(numbers, columns[k].source_index),
                )
        }),
    decreases columns.len() - i,
{
    if i < columns.len() {
        let at = columns[i].source_index;
        let next = done.push(scalar(field(row, at), number_at(numbers, at))->Ok_0);
        lemma_values(row, numbers, columns, i + 1, next);
        let out = values_from(row, numbers, columns, i, done)->Ok_0;
        assert(out[i] == next[i]);
        assert forall|k: int| 0 <= k < i implies (#[trigger] out[k]) == done[k] by {
            assert(out[k] == next[k]);
        }
    }
}

spec fn row_is(
    t: CsvTableView,
    numbers: Seq<Seq<Option<u64>>>,
    d: CsvDraftView,
    k: int,
    row: CsvRowView,
) -> bool {
    let values = values_from(t.rows[k], numbers_at(numbers, k), d.columns, 0, Seq::empty());
    &&& k < i64::MAX
    &&& time_of(d, t.rows[k], k) matches Ok(time) && row.time == time as i64
    &&& values is Ok && row.values == values->Ok_0
}

proof fn lemma_rows(
    t: CsvTableView,
    numbers: Seq<Seq<Option<u64>>>,
    d: CsvDraftView,
    i: int,
    done: Seq<CsvRowView>,
)
    requires
        0 <= i <= t.rows.len(),
        i <= i64::MAX,
        done.len() == i,
        rows_from(t, numbers, d, i, done) is Ok,
    ensures
        ({
            let out = rows_from(t, numbers, d, i, done)->Ok_0;
            &&& out.len() == t.rows.len()
            &&& forall|k: int| 0 <= k < i ==> (#[trigger] out[k]) == done[k]
            &&& forall|k: int|
                i <= k < t.rows.len() ==> row_is(t, numbers, d, k, #[trigger] out[k])
        }),
    decreases t.rows.len() - i,
{
    if i < t.rows.len() {
        let values = values_from(t.rows[i], numbers_at(numbers, i), d.columns, 0, Seq::empty())->Ok_0;
        let next = done.push(CsvRowView { time: time_of(d, t.rows[i], i)->Ok_0 as i64, values });
        lemma_rows(t, numbers, d, i + 1, next);
        let out = rows_from(t, numbers, d, i, done)->Ok_0;
        assert(out == rows_from(t, numbers, d, i + 1, next)->Ok_0);
        assert(out[i] == next[i]);
        assert(i < i64::MAX);
        assert(row_is(t, numbers, d, i, out[i]));
        assert forall|k: int| 0 <= k < i implies (#[trigger] out[k]) == done[k] by {
            assert(out[k] == next[k]);
        }
    }
}

/// A sample is the number in the column of its series, in the row that it stands in; a blank
/// field gives no sample. The row's time is what its timeline field writes, or its place.
pub proof fn law_rows_hold_the_numbers_of_their_columns(
    t: CsvTableView,
    numbers: Seq<Seq<Option<u64>>>,
    d: CsvDraftView,
    i: int,
    k: int,
)
    requires
        rows_from(t, numbers, d, 0, Seq::empty()) is Ok,
        0 <= i < t.rows.len(),
        i < numbers.len(),
        numbers[i].len() == t.rows[i].len(),
        0 <= k < d.columns.len(),
        d.columns[k].source_index < t.rows[i].len(),
        d.timeline_column matches Some(c) ==> 0 <= c < t.rows[i].len() <= usize::MAX,
    ensures
        ({
            let rows = rows_from(t, numbers, d, 0, Seq::empty())->Ok_0;
            let c = d.columns[k].source_index as int;
            &&& rows.len() == t.rows.len()
            &&& rows[i].values.len() == d.columns.len()
            &&& text::trim(t.rows[i][c]).len() == 0 ==> rows[i].values[k] is None
            &&& text::trim(t.rows[i][c]).len() > 0 ==> rows[i].values[k] is Some
                && rows[i].values[k] == numbers[i][c]
            &&& match d.timeline_column {
                None => rows[i].time == i,
                Some(at) => csv_import::timeline_value(
                    t.rows[i][at],
                    d.timeline_kind,
                    d.timeline_unit,
                ) is Some && rows[i].time == csv_import::timeline_value(
                    t.rows[i][at],
                    d.timeline_kind,
                    d.timeline_unit,
                )->Some_0 as i64,
            }
        }),
{
    lemma_rows(t, numbers, d, 0, Seq::empty());
    lemma_values(t.rows[i], numbers[i], d.columns, 0, Seq::empty());
}

/// The samples of a series that are spread over chunks, in their order.
pub open spec fn series_samples(chunks: Seq<CsvChunkView>, column: int) -> Seq<(i64, u64)>
    decreases chunks.len(),
{
    if chunks.len() == 0 {
        Seq::empty()
    } else if chunks.last().column == column {
        series_samples(chunks.drop_last(), column) + chunks.last().samples
    } else {
        series_samples(chunks.drop_last(), column)
    }
}

proof fn lemma_series_samples_add(a: Seq<CsvChunkView>, b: Seq<CsvChunkView>, column: int)
    ensures
        series_samples(a + b, column) == series_samples(a, column) + series_samples(b, column),
    decreases b.len(),
{
    if b.len() == 0 {
        assert(a + b =~= a);
    } else {
        assert((a + b).drop_last() =~= a + b.drop_last());
        lemma_series_samples_add(a, b.drop_last(), column);
    }
    assert(series_samples(a + b, column) =~= series_samples(a, column) + series_samples(b, column));
}

proof fn lemma_batch(rows: Seq<CsvRowView>, columns: int, from: int, to: int, column: int)
    requires
        0 <= columns,
        0 <= from <= to <= from + CSV_BATCH_ROWS,
    ensures
        series_samples(batch(rows, columns, from, to), column) == if 0 <= column < columns {
            samples(rows, column, from, to)
        } else {
            Seq::empty()
        },
        forall|k: int|
            0 <= k < batch(rows, columns, from, to).len() ==> 0 < (#[trigger] batch(
                rows,
                columns,
                from,
                to,
            )[k]).samples.len() <= CSV_BATCH_ROWS && 0 <= batch(rows, columns, from, to)[k].column
                < columns,
    decreases columns,
{
    if columns > 0 {
        lemma_batch(rows, columns - 1, from, to, column);
        lemma_samples_count(rows, columns - 1, from, to);
        let before = batch(rows, columns - 1, from, to);
        let found = samples(rows, columns - 1, from, to);
        if found.len() > 0 {
            let all = batch(rows, columns, from, to);
            assert(all.drop_last() =~= before);
        }
        assert(series_samples(batch(rows, columns, from, to), column) =~= if 0 <= column < columns {
            samples(rows, column, from, to)
        } else {
            Seq::empty()
        });
    }
}

proof fn lemma_samples_count(rows: Seq<CsvRowView>, column: int, from: int, to: int)
    requires
        from <= to,
    ensures
        samples(rows, column, from, to).len() <= to - from,
    decreases to - from,
{
    if from < to {
        lemma_samples_count(rows, column, from, to - 1);
    }
}

proof fn lemma_batches(rows: Seq<CsvRowView>, columns: int, from: int, column: int)
    requires
        0 <= columns,
        0 <= from <= rows.len(),
    ensures
        series_samples(batches(rows, columns, from), column) == if 0 <= column < columns {
            samples(rows, column, from, rows.len() as int)
        } else {
            Seq::empty()
        },
        forall|k: int|
            0 <= k < batches(rows, columns, from).len() ==> 0 < (#[trigger] batches(
                rows,
                columns,
                from,
            )[k]).samples.len() <= CSV_BATCH_ROWS && 0 <= batches(rows, columns, from)[k].column
                < columns,
    decreases rows.len() - from,
{
    if from < rows.len() {
        let to = batch_end(rows.len() as int, from);
        lemma_batch(rows, columns, from, to, column);
        lemma_batches(rows, columns, to, column);
        lemma_series_samples_add(batch(rows, columns, from, to), batches(rows, columns, to), column);
        if 0 <= column < columns {
            law_batches_split_samples(rows, column, from, to, rows.len() as int);
        }
        let all = batches(rows, columns, from);
        let part = batch(rows, columns, from, to);
        assert forall|k: int| 0 <= k < all.len() implies 0 < (#[trigger] all[k]).samples.len()
            <= CSV_BATCH_ROWS && 0 <= all[k].column < columns by {
            if k < part.len() {
                assert(all[k] == part[k]);
            } else {
                assert(all[k] == batches(rows, columns, to)[k - part.len()]);
            }
        }
    }
}

proof fn lemma_samples_are_filtered(rows: Seq<CsvRowView>, column: int, n: int)
    requires
        0 <= n <= rows.len(),
        0 <= column,
        forall|i: int| 0 <= i < rows.len() ==> column < (#[trigger] rows[i]).values.len(),
    ensures
        samples(rows, column, 0, n) == rows.take(n).filter(
            |r: CsvRowView| r.values[column] is Some,
        ).map_values(|r: CsvRowView| (r.time, r.values[column]->Some_0)),
    decreases n,
{
    reveal(Seq::filter);
    let keep = |r: CsvRowView| r.values[column] is Some;
    let pair = |r: CsvRowView| (r.time, r.values[column]->Some_0);
    if n > 0 {
        lemma_samples_are_filtered(rows, column, n - 1);
        assert(rows.take(n).drop_last() =~= rows.take(n - 1));
        assert(rows.take(n).last() == rows[n - 1]);
        let kept = rows.take(n - 1).filter(keep);
        if keep(rows[n - 1]) {
            assert(rows.take(n).filter(keep) == kept.push(rows[n - 1]));
            assert(kept.push(rows[n - 1]).map_values(pair) =~= kept.map_values(pair).push(
                pair(rows[n - 1]),
            ));
        } else {
            assert(rows.take(n).filter(keep) == kept);
        }
    } else {
        assert(rows.take(0).filter(keep).map_values(pair) =~= Seq::empty());
    }
}

/// The chunks of a CSV import hold every sample once: those of a series, one chunk after the
/// other, are the rows in which it has a value, in their order, with their times. No chunk is
/// empty or holds more than a batch.
pub proof fn law_chunks_hold_every_sample_once(rows: Seq<CsvRowView>, columns: int, column: int)
    requires
        0 <= column < columns,
        forall|i: int| 0 <= i < rows.len() ==> (#[trigger] rows[i]).values.len() == columns,
    ensures
        ({
            let chunks = batches(rows, columns, 0);
            &&& series_samples(chunks, column) == rows.filter(
                |r: CsvRowView| r.values[column] is Some,
            ).map_values(|r: CsvRowView| (r.time, r.values[column]->Some_0))
            &&& forall|k: int|
                0 <= k < chunks.len() ==> 0 < (#[trigger] chunks[k]).samples.len() <= 4_096 && 0
                    <= chunks[k].column < columns
        }),
{
    lemma_batches(rows, columns, 0, column);
    lemma_samples_are_filtered(rows, column, rows.len() as int);
    assert(rows.take(rows.len() as int) =~= rows);
}

} // verus!
