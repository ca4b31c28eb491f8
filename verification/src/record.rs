//! The layout of the persisted record: one row per sampled tick.
//!
//! A row starts with the time and the three energies (kinetic, potential,
//! total) and goes on with two cells for each body, its x and its y
//! coordinate, in the order of the roster. On a tick whose energies were not
//! computed the three energy cells hold the mark for "unavailable". The
//! numbers arrive as text: how a number is printed is the caller's business.

use vstd::prelude::*;
use vstd::string::*;

verus! {

/// The number of cells in front of the first body's cells.
pub const LEFT_PAD: usize = 4;

/// The number of cells that each body takes.
pub const COLUMNS_PER_OBJECT: usize = 2;

/// The number of rows from one sampling of the energies to the next.
pub const ENERGY_INTERVAL: usize = 1;

/// The number of rows after which the record is complete.
pub const ROW_LIMIT: usize = 16000;

/// Whether the energies are to be computed for the row with the number
/// `row`, counted from zero, when they are sampled every `interval` rows.
pub fn energy_due(row: usize, interval: usize) -> (due: bool)
    requires
        interval > 0,
    ensures
        due == (row % interval == 0),
{
    row % interval == 0
}

/// Whether a record that holds `rows` rows takes another one.
pub fn still_writing(rows: usize) -> (open: bool)
    ensures
        open == (rows < ROW_LIMIT),
{
    rows < ROW_LIMIT
}

/// The text of a cell whose value is unavailable.
pub open spec fn unavailable() -> Seq<char> {
    "NaN"@
}

/// The cell of the row at `column`, for a column behind the time.
pub open spec fn cell_behind_time(
    energy: Option<(Seq<char>, Seq<char>, Seq<char>)>,
    pairs: Seq<(Seq<char>, Seq<char>)>,
    column: int,
) -> Seq<char> {
    if column < LEFT_PAD {
        match energy {
            Some(e) => if column == 1 {
                e.0
            } else if column == 2 {
                e.1
            } else {
                e.2
            },
            None => unavailable(),
        }
    } else if (column - LEFT_PAD) % (COLUMNS_PER_OBJECT as int) == 0 {
        pairs[(column - LEFT_PAD) / (COLUMNS_PER_OBJECT as int)].0
    } else {
        pairs[(column - LEFT_PAD) / (COLUMNS_PER_OBJECT as int)].1
    }
}

/// The row of a tick: the time, the energies or the mark in their place,
/// then each body's two coordinates.
pub open spec fn physical_cells(
    time: Seq<char>,
    energy: Option<(Seq<char>, Seq<char>, Seq<char>)>,
    positions: Seq<(Seq<char>, Seq<char>)>,
) -> Seq<Seq<char>> {
    Seq::new(
        (LEFT_PAD + COLUMNS_PER_OBJECT * positions.len()) as nat,
        |column: int|
            if column == 0 {
                time
            } else {
                cell_behind_time(energy, positions, column)
            },
    )
}

/// Lays out the row of one sampled tick.
pub fn physical_row(
    time: String,
    energy: Option<(String, String, String)>,
    positions: &Vec<(String, String)>,
) -> (row: Vec<String>)
    ensures
        row.deep_view() == physical_cells(
            time.deep_view(),
            energy.deep_view(),
            positions.deep_view(),
        ),
{
    let ghost cells = physical_cells(time.deep_view(), energy.deep_view(), positions.deep_view());
    let mut row: Vec<String> = Vec::new();
    row.push(time);
    match energy {
        Some((kinetic, potential, total)) => {
            row.push(kinetic);
            row.push(potential);
            row.push(total);
        },
        None => {
            row.push(String::from_str("NaN"));
            row.push(String::from_str("NaN"));
            row.push(String::from_str("NaN"));
        },
    }
    let n = positions.len();
    let mut body: usize = 0;
    while body < n
        invariant
            body <= n,
            n == positions.len(),
            cells == physical_cells(time.deep_view(), energy.deep_view(), positions.deep_view()),
            row.len() == LEFT_PAD + COLUMNS_PER_OBJECT * body,
            forall|c: int| 0 <= c < row.len() ==> (#[trigger] row[c]).deep_view() == cells[c],
        decreases n - body,
    {
        assert(positions.deep_view()[body as int] == positions[body as int].deep_view());
        row.push(positions[body].0.clone());
        row.push(positions[body].1.clone());
        body = body + 1;
    }
    assert(row.deep_view() =~= cells);
    row
}

/// The title of the column that holds one coordinate of one body. `axis`
/// names the coordinate, `mass` is the body's mass as text.
pub open spec fn axis_title(axis: Seq<char>, name: Seq<char>, mass: Seq<char>) -> Seq<char> {
    "Position in "@ + axis + " of "@ + name + " with mass "@ + mass
}

/// The title of the column at `column`.
pub open spec fn title_at(bodies: Seq<(Seq<char>, Seq<char>)>, column: int) -> Seq<char> {
    if column == 0 {
        "Time"@
    } else if column == 1 {
        "Kinetic Energy"@
    } else if column == 2 {
        "Gravitational Potential Energy"@
    } else if column == 3 {
        "Total Energy"@
    } else {
        let body = bodies[(column - LEFT_PAD) / (COLUMNS_PER_OBJECT as int)];
        if (column - LEFT_PAD) % (COLUMNS_PER_OBJECT as int) == 0 {
            axis_title("X"@, body.0, body.1)
        } else {
            axis_title("Y"@, body.0, body.1)
        }
    }
}

/// The row of titles: one title for each cell of a tick's row. Each body is
/// given by its name and by its mass as text.
pub open spec fn topline_cells(bodies: Seq<(Seq<char>, Seq<char>)>) -> Seq<Seq<char>> {
    Seq::new(
        (LEFT_PAD + COLUMNS_PER_OBJECT * bodies.len()) as nat,
        |column: int| title_at(bodies, column),
    )
}

/// Writes the title of one coordinate's column.
pub fn axis_title_text(axis: &str, name: &str, mass: &str) -> (title: String)
    ensures
        title@ == axis_title(axis@, name@, mass@),
{
    let mut title = String::from_str("Position in ");
    title.append(axis);
    title.append(" of ");
    title.append(name);
    title.append(" with mass ");
    title.append(mass);
    title
}

/// Lays out the row of titles.
pub fn topline_row(bodies: &Vec<(String, String)>) -> (row: Vec<String>)
    ensures
        row.deep_view() == topline_cells(bodies.deep_view()),
{
    let ghost cells = topline_cells(bodies.deep_view());
    let mut row: Vec<String> = Vec::new();
    row.push(String::from_str("Time"));
    row.push(String::from_str("Kinetic Energy"));
    row.push(String::from_str("Gravitational Potential Energy"));
    row.push(String::from_str("Total Energy"));
    let n = bodies.len();
    let mut body: usize = 0;
    while body < n
        invariant
            body <= n,
            n == bodies.len(),
            cells == topline_cells(bodies.deep_view()),
            row.len() == LEFT_PAD + COLUMNS_PER_OBJECT * body,
            forall|c: int| 0 <= c < row.len() ==> (#[trigger] row[c]).deep_view() == cells[c],
        decreases n - body,
    {
        assert(bodies.deep_view()[body as int] == bodies[body as int].deep_view());
        let name = bodies[body].0.as_str();
        let mass = bodies[body].1.as_str();
        row.push(axis_title_text("X", name, mass));
        row.push(axis_title_text("Y", name, mass));
        body = body + 1;
    }
    assert(row.deep_view() =~= cells);
    row
}

/// Why a row could not be added.
#[derive(Clone, Copy, Debug, PartialEq, Eq, Structural)]
pub enum RecordError {
    /// The CSV writer refused the row.
    Writer,
}

/// `csv::Error`, the error of the CSV writer. Nothing is known of what is in
/// it; it is only told apart from success.
#[verifier::external_type_specification]
#[verifier::external_body]
pub struct ExCsvError(csv::Error);

/// What a `csv` writer with the default settings, writing to memory, makes
/// of the given cells as its first record: the bytes of the line, or `None`
/// where it refuses the cells.
pub uninterp spec fn csv_line(cells: Seq<Seq<char>>) -> Option<Seq<u8>>;

/// `csv::Writer::write_record` on a fresh writer with the default settings
/// that writes to memory, followed by `into_inner`. Claimed and not proved:
/// whether the writer accepts the cells, and the bytes that it then writes,
/// depend on the cells alone. Nothing is claimed of which cells it accepts.
#[verifier::external_body]
fn write_line(row: &Vec<String>) -> (written: Result<Vec<u8>, csv::Error>)
    ensures
        match written {
            Ok(bytes) => csv_line(row.deep_view()) == Some(bytes@),
            Err(_) => csv_line(row.deep_view()).is_none(),
        },
{
    let mut writer = csv::Writer::from_writer(Vec::new());
    writer.write_record(row)?;
    match writer.into_inner() {
        Ok(bytes) => Ok(bytes),
        Err(stuck) => Err(csv::Error::from(stuck.into_error())),
    }
}

/// Adds what the writer has produced to the end of `out`. A line that was
/// written is added whole; a refusal leaves `out` as it is.
pub fn add_line(out: &mut Vec<u8>, written: Result<Vec<u8>, csv::Error>) -> (done: Result<
    (),
    RecordError,
>)
    ensures
        match written {
            Ok(bytes) => done == Ok::<(), RecordError>(()) && final(out)@ == old(out)@ + bytes@,
            Err(_) => done == Err::<(), RecordError>(RecordError::Writer) && final(out)@ == old(
                out,
            )@,
        },
{
    match written {
        Ok(bytes) => {
            let mut bytes = bytes;
            out.append(&mut bytes);
            Ok(())
        },
        Err(_) => Err(RecordError::Writer),
    }
}

/// Adds `row` to the end of `out` as one CSV line. Whether the writer
/// accepts the row is the writer's decision, and depends on the cells of the
/// row alone; if it does not, `out` is left as it is.
pub fn add_record(out: &mut Vec<u8>, row: &Vec<String>) -> (done: Result<(), RecordError>)
    ensures
        line_added(old(out)@, row.deep_view(), final(out)@, done),
{
    let written = write_line(row);
    add_line(out, written)
}

/// Adds the row of one sampled tick to the end of `out`.
pub fn add_physical_data(
    out: &mut Vec<u8>,
    time: String,
    energy: Option<(String, String, String)>,
    positions: &Vec<(String, String)>,
) -> (done: Result<(), RecordError>)
    ensures
        line_added(
            old(out)@,
            physical_cells(time.deep_view(), energy.deep_view(), positions.deep_view()),
            final(out)@,
            done,
        ),
{
    let row = physical_row(time, energy, positions);
    add_record(out, &row)
}

/// Adds the row of titles to the end of `out`.
pub fn add_topline_data(out: &mut Vec<u8>, bodies: &Vec<(String, String)>) -> (done: Result<
    (),
    RecordError,
>)
    ensures
        line_added(old(out)@, topline_cells(bodies.deep_view()), final(out)@, done),
{
    let row = topline_row(bodies);
    add_record(out, &row)
}

/// What adding a line does: a line that the writer has made of the cells is
/// added to the end of the output, and the call succeeds; where the writer
/// has refused the cells the output stays as it is, and the call fails.
pub open spec fn line_added(
    before: Seq<u8>,
    cells: Seq<Seq<char>>,
    after: Seq<u8>,
    done: Result<(), RecordError>,
) -> bool {
    match csv_line(cells) {
        Some(line) => done == Ok::<(), RecordError>(()) && after == before + line,
        None => done == Err::<(), RecordError>(RecordError::Writer) && after == before,
    }
}

} // verus!
