use vstd::prelude::*;
use vstd::string::*;

use crate::printer::{decimal, decimal_text, row_view, rows_view};

verus! {

/// Why a table could not be made.
#[derive(Clone, Copy, Debug, PartialEq, Eq, Structural)]
pub enum ListErrorKind {
    /// A line holds more cells than the header.
    FormatError,
    /// The table could not be put out.
    IOError,
}

/// A table to be put out: its titles, if it has any, its rows, and whether
/// it is to be put out at all.
#[derive(Debug)]
pub struct Table {
    pub titles: Option<Vec<String>>,
    pub rows: Vec<Vec<String>>,
    pub print: bool,
}

/// Makes tables of lines of cells: with or without a header, with or without
/// a column that numbers the lines.
#[derive(Debug)]
pub struct TableLister {
    header: Option<Vec<String>>,
    with_idx: bool,
    print_empty: bool,
}

/// The title of the column that numbers the lines.
pub open spec fn index_title() -> Seq<char> {
    "#"@
}

/// `n` empty cells.
pub open spec fn padding(n: int) -> Seq<Seq<char>> {
    Seq::new(if n > 0 { n as nat } else { 0 }, |i: int| Seq::<char>::empty())
}

/// The number of cells that every row gets, the numbering apart: the
/// header's where there is one, else the first line's.
pub open spec fn table_width(header: Option<Seq<Seq<char>>>, lines: Seq<Seq<Seq<char>>>) -> int {
    match header {
        Some(h) => h.len() as int,
        None => if lines.len() > 0 {
            lines[0].len() as int
        } else {
            0
        },
    }
}

/// Whether one of the lines holds more cells than the table is wide.
pub open spec fn overlong(lines: Seq<Seq<Seq<char>>>, width: int) -> bool {
    exists|i: int| 0 <= i < lines.len() && (#[trigger] lines[i]).len() > width
}

/// The row that is made of the line at `i`: its number first, counted from
/// zero, where lines are numbered; then its cells; then empty cells up to
/// the table's width.
pub open spec fn listed_row(line: Seq<Seq<char>>, i: int, width: int, with_idx: bool) -> Seq<
    Seq<char>,
> {
    let cells = line + padding(width - line.len());
    if with_idx {
        seq![decimal_text(i as nat)] + cells
    } else {
        cells
    }
}

/// The titles that are made of a header: the title of the numbers first
/// where lines are numbered.
pub open spec fn listed_titles(header: Seq<Seq<char>>, with_idx: bool) -> Seq<Seq<char>> {
    if with_idx {
        seq![index_title()] + header
    } else {
        header
    }
}

impl TableLister {
    /// The header, if one was set.
    pub closed spec fn header(&self) -> Option<Seq<Seq<char>>> {
        match self.header {
            Some(h) => Some(row_view(h@)),
            None => None,
        }
    }

    /// Whether lines are numbered.
    pub closed spec fn numbers_lines(&self) -> bool {
        self.with_idx
    }

    /// The switch that `print_empty` sets.
    pub closed spec fn prints_empty(&self) -> bool {
        self.print_empty
    }

    /// A lister without header that numbers its lines.
    pub fn new() -> (l: TableLister)
        ensures
            l.header() is None,
            l.numbers_lines(),
            !l.prints_empty(),
    {
        TableLister { header: None, with_idx: true, print_empty: false }
    }

    pub fn with_header(self, hdr: Vec<String>) -> (l: TableLister)
        ensures
            l.header() == Some(row_view(hdr@)),
            l.numbers_lines() == self.numbers_lines(),
            l.prints_empty() == self.prints_empty(),
    {
        TableLister { header: Some(hdr), with_idx: self.with_idx, print_empty: self.print_empty }
    }

    pub fn with_idx(self, b: bool) -> (l: TableLister)
        ensures
            l.header() == self.header(),
            l.numbers_lines() == b,
            l.prints_empty() == self.prints_empty(),
    {
        TableLister { header: self.header, with_idx: b, print_empty: self.print_empty }
    }

    pub fn print_empty(self, b: bool) -> (l: TableLister)
        ensures
            l.header() == self.header(),
            l.numbers_lines() == self.numbers_lines(),
            l.prints_empty() == b,
    {
        TableLister { header: self.header, with_idx: self.with_idx, print_empty: b }
    }

    /// Makes the table of `lines`. A line that holds more cells than the
    /// table is wide is an error; a shorter one is filled up with empty
    /// cells. The table is to be put out where it has a row and the switch
    /// of `print_empty` is off.
    pub fn list(&self, lines: &Vec<Vec<String>>) -> (r: Result<Table, ListErrorKind>)
        ensures
            overlong(rows_view(lines@), table_width(self.header(), rows_view(lines@))) ==> r
                == Err::<Table, ListErrorKind>(ListErrorKind::FormatError),
            !overlong(rows_view(lines@), table_width(self.header(), rows_view(lines@))) ==> {
                &&& r is Ok
                &&& r->Ok_0.print == (lines@.len() != 0 && !self.prints_empty())
                &&& match self.header() {
                    Some(h) => r->Ok_0.titles is Some && row_view(r->Ok_0.titles->Some_0@)
                        == listed_titles(h, self.numbers_lines()),
                    None => r->Ok_0.titles is None,
                }
                &&& r->Ok_0.rows@.len() == lines@.len()
                &&& forall|i: int|
                    0 <= i < lines@.len() ==> row_view(#[trigger] r->Ok_0.rows@[i]@) == listed_row(
                        rows_view(lines@)[i],
                        i,
                        table_width(self.header(), rows_view(lines@)),
                        self.numbers_lines(),
                    )
            },
    {
        let ghost all = rows_view(lines@);
        let ghost wide = table_width(self.header(), all);
        let titles = match &self.header {
            None => None,
            Some(h) => {
                let mut cells: Vec<String> = Vec::new();
                if self.with_idx {
                    cells.push(String::from_str("#"));
                }
                let ghost first = row_view(cells@);
                let mut k: usize = 0;
                while k < h.len()
                    invariant
                        k <= h@.len(),
                        row_view(cells@) =~= first + row_view(h@).take(k as int),
                    decreases h@.len() - k,
                {
                    let ghost before = row_view(cells@);
                    cells.push(h[k].clone());
                    assert(row_view(cells@) =~= before.push(h@[k as int]@));
                    k += 1;
                }
                assert(row_view(h@).take(k as int) =~= row_view(h@));
                assert(row_view(cells@) =~= listed_titles(row_view(h@), self.with_idx));
                Some(cells)
            },
        };
        let width: usize = match &self.header {
            Some(h) => h.len(),
            None => if lines.len() > 0 {
                lines[0].len()
            } else {
                0
            },
        };
        assert(width == wide);
        let mut rows: Vec<Vec<String>> = Vec::new();
        let mut i: usize = 0;
        while i < lines.len()
            invariant
                i <= lines@.len(),
                all == rows_view(lines@),
                wide == table_width(self.header(), all),
                width == wide,
                rows@.len() == i,
                forall|j: int| 0 <= j < i ==> (#[trigger] all[j]).len() <= wide,
                forall|j: int|
                    0 <= j < i ==> row_view(#[trigger] rows@[j]@) == listed_row(
                        all[j],
                        j,
                        wide,
                        self.numbers_lines(),
                    ),
            decreases lines@.len() - i,
        {
            let line = &lines[i];
            assert(all[i as int] == row_view(line@));
            if line.len() > width {
                assert(overlong(all, wide));
                return Err(ListErrorKind::FormatError);
            }
            let mut row: Vec<String> = Vec::new();
            if self.with_idx {
                row.push(decimal(i));
            }
            let ghost first = row_view(row@);
            let mut k: usize = 0;
            while k < line.len()
                invariant
                    k <= line@.len(),
                    row_view(row@) =~= first + row_view(line@).take(k as int),
                decreases line@.len() - k,
            {
                let ghost before = row_view(row@);
                row.push(line[k].clone());
                assert(row_view(row@) =~= before.push(line@[k as int]@));
                k += 1;
            }
            assert(row_view(line@).take(k as int) =~= row_view(line@));
            let mut filled: usize = line.len();
            while filled < width
                invariant
                    line@.len() <= filled <= width,
                    row_view(row@) =~= first + row_view(line@) + padding(filled - line@.len()),
                decreases width - filled,
            {
                let ghost before = row_view(row@);
                row.push(String::new());
                assert(row_view(row@) =~= before.push(Seq::<char>::empty()));
                filled += 1;
            }
            assert(row_view(row@) =~= listed_row(all[i as int], i as int, wide, self.with_idx));
            rows.push(row);
            i += 1;
        }
        assert(!overlong(all, wide));
        let print = lines.len() != 0 && !self.print_empty;
        Ok(Table { titles, rows, print })
    }
}

} // verus!
