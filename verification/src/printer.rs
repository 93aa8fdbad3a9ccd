use vstd::prelude::*;
use vstd::string::*;

verus! {

/// What printing reads of a stored file.
#[derive(Debug)]
pub struct FileInfo {
    pub owner: String,
    pub id: String,
}

/// How loud a line is.
#[derive(Clone, Copy, Debug, PartialEq, Eq, Structural)]
pub enum Level {
    Debug,
    Info,
}

/// A line to be put out: how loud, whether its text is to be shown quoted,
/// and the text.
#[derive(Debug)]
pub struct Line {
    pub level: Level,
    pub quoted: bool,
    pub text: String,
}

/// The character of one decimal digit.
pub open spec fn digit_char(d: nat) -> char {
    if d == 0 {
        '0'
    } else if d == 1 {
        '1'
    } else if d == 2 {
        '2'
    } else if d == 3 {
        '3'
    } else if d == 4 {
        '4'
    } else if d == 5 {
        '5'
    } else if d == 6 {
        '6'
    } else if d == 7 {
        '7'
    } else if d == 8 {
        '8'
    } else {
        '9'
    }
}

/// A number written in decimal digits, without leading zeros.
pub open spec fn decimal_text(n: nat) -> Seq<char>
    decreases n,
{
    if n < 10 {
        seq![digit_char(n)]
    } else {
        decimal_text(n / 10).push(digit_char(n % 10))
    }
}

/// The text of one decimal digit.
fn digit(d: usize) -> (s: &'static str)
    requires
        d < 10,
    ensures
        s@ == seq![digit_char(d as nat)],
{
    proof {
        reveal_strlit("0");
        reveal_strlit("1");
        reveal_strlit("2");
        reveal_strlit("3");
        reveal_strlit("4");
        reveal_strlit("5");
        reveal_strlit("6");
        reveal_strlit("7");
        reveal_strlit("8");
        reveal_strlit("9");
    }
    let s = if d == 0 {
        "0"
    } else if d == 1 {
        "1"
    } else if d == 2 {
        "2"
    } else if d == 3 {
        "3"
    } else if d == 4 {
        "4"
    } else if d == 5 {
        "5"
    } else if d == 6 {
        "6"
    } else if d == 7 {
        "7"
    } else if d == 8 {
        "8"
    } else {
        "9"
    };
    assert(s@ =~= seq![digit_char(d as nat)]);
    s
}

/// Writes a number in decimal digits.
pub fn decimal(n: usize) -> (s: String)
    ensures
        s@ == decimal_text(n as nat),
    decreases n,
{
    if n < 10 {
        String::from_str(digit(n))
    } else {
        let s = decimal(n / 10).concat(digit(n % 10));
        assert(s@ =~= decimal_text(n as nat));
        s
    }
}

/// The text that tells the plain printer's lines apart from others.
pub open spec fn file_prefix() -> Seq<char> {
    "[File]: "@
}

/// The line that the plain printer makes of a text: quoted and for
/// debugging where `debug` is set, as it is where `verbose` is set, else
/// behind the prefix of files.
pub open spec fn simple_line(verbose: bool, debug: bool, text: Seq<char>) -> (Level, bool, Seq<char>) {
    if debug {
        (Level::Debug, true, text)
    } else if verbose {
        (Level::Info, false, text)
    } else {
        (Level::Info, false, file_prefix() + text)
    }
}

/// Whether `line` is the line that `expected` describes.
pub open spec fn is_line(line: Line, expected: (Level, bool, Seq<char>)) -> bool {
    line.level == expected.0 && line.quoted == expected.1 && line.text@ == expected.2
}

/// The line that a printer makes of a text, if it makes one.
pub open spec fn made_line(line: Option<Line>, expected: Option<(Level, bool, Seq<char>)>) -> bool {
    match expected {
        Some(l) => line is Some && is_line(line->Some_0, l),
        None => line is None,
    }
}

/// Something that puts files out, one line for each.
pub trait FilePrinter: Sized {
    /// Whether the printer was made with these two switches.
    spec fn made_with(&self, verbose: bool, debug: bool) -> bool;

    /// The line that the printer makes of a text, if it makes one.
    spec fn line_of(&self, text: Seq<char>) -> Option<(Level, bool, Seq<char>)>;

    /// A printer with the two switches set as given.
    fn new(verbose: bool, debug: bool) -> (p: Self)
        ensures
            p.made_with(verbose, debug),
    ;

    /// The line for a text that the caller made of a file.
    fn print_file_custom(&self, text: String) -> (line: Option<Line>)
        ensures
            made_line(line, self.line_of(text@)),
    ;
}

/// The printer that says something only when debugging.
#[derive(Clone, Copy, Debug)]
pub struct DebugPrinter {
    debug: bool,
}

impl DebugPrinter {
    /// Whether the printer says anything.
    pub closed spec fn debugging(&self) -> bool {
        self.debug
    }
}

impl FilePrinter for DebugPrinter {
    open spec fn made_with(&self, verbose: bool, debug: bool) -> bool {
        self.debugging() == debug
    }

    /// One line for debugging, quoted, or none.
    open spec fn line_of(&self, text: Seq<char>) -> Option<(Level, bool, Seq<char>)> {
        if self.debugging() {
            Some((Level::Debug, true, text))
        } else {
            None
        }
    }

    fn new(verbose: bool, debug: bool) -> (p: DebugPrinter) {
        DebugPrinter { debug }
    }

    fn print_file_custom(&self, text: String) -> (line: Option<Line>) {
        if self.debug {
            Some(Line { level: Level::Debug, quoted: true, text })
        } else {
            None
        }
    }
}

/// The printer that puts out one line for each file.
#[derive(Clone, Copy, Debug)]
pub struct SimplePrinter {
    verbose: bool,
    debug: bool,
}

impl SimplePrinter {
    pub closed spec fn is_verbose(&self) -> bool {
        self.verbose
    }

    pub closed spec fn debugging(&self) -> bool {
        self.debug
    }

    /// The line for a file: its identifier behind the prefix of files. Where
    /// the printer is verbose or debugging it makes no line of its own: the
    /// file is then put out whole.
    pub fn print_file(&self, file: &FileInfo) -> (line: Option<Line>)
        ensures
            made_line(
                line,
                if self.is_verbose() || self.debugging() {
                    None
                } else {
                    Some((Level::Info, false, file_prefix() + file.id@))
                },
            ),
    {
        if self.debug || self.verbose {
            None
        } else {
            Some(
                Line {
                    level: Level::Info,
                    quoted: false,
                    text: String::from_str("[File]: ").concat(file.id.as_str()),
                },
            )
        }
    }
}

impl FilePrinter for SimplePrinter {
    open spec fn made_with(&self, verbose: bool, debug: bool) -> bool {
        self.is_verbose() == verbose && self.debugging() == debug
    }

    open spec fn line_of(&self, text: Seq<char>) -> Option<(Level, bool, Seq<char>)> {
        Some(simple_line(self.is_verbose(), self.debugging(), text))
    }

    fn new(verbose: bool, debug: bool) -> (p: SimplePrinter) {
        SimplePrinter { debug, verbose }
    }

    fn print_file_custom(&self, text: String) -> (line: Option<Line>) {
        if self.debug {
            Some(Line { level: Level::Debug, quoted: true, text })
        } else if self.verbose {
            Some(Line { level: Level::Info, quoted: false, text })
        } else {
            Some(
                Line {
                    level: Level::Info,
                    quoted: false,
                    text: String::from_str("[File]: ").concat(text.as_str()),
                },
            )
        }
    }
}

/// The titles of the table of files.
pub open spec fn table_titles() -> Seq<Seq<char>> {
    seq!["File#"@, "Owner"@, "ID"@]
}

/// The titles of the table of files with a column of the caller's own.
pub open spec fn table_titles_custom() -> Seq<Seq<char>> {
    seq!["File#"@, "Owner"@, "ID"@, "..."@]
}

/// The row of the file at position `i`: its number, counted from one, its
/// owner and its identifier.
pub open spec fn table_row(files: Seq<FileInfo>, i: int) -> Seq<Seq<char>> {
    seq![decimal_text((i + 1) as nat), files[i].owner@, files[i].id@]
}

/// The text of each cell of a row.
pub open spec fn row_view(row: Seq<String>) -> Seq<Seq<char>> {
    Seq::new(row.len(), |i: int| row[i]@)
}

/// The text of each cell of each row.
pub open spec fn rows_view(rows: Seq<Vec<String>>) -> Seq<Seq<Seq<char>>> {
    Seq::new(rows.len(), |i: int| row_view(rows[i]@))
}

/// The printer that puts files out as a table.
#[derive(Clone, Copy, Debug)]
pub struct TablePrinter {
    verbose: bool,
    debug: bool,
    sp: SimplePrinter,
}

impl FilePrinter for TablePrinter {
    open spec fn made_with(&self, verbose: bool, debug: bool) -> bool {
        &&& self.is_verbose() == verbose
        &&& self.debugging() == debug
        &&& self.simple().made_with(verbose, debug)
    }

    /// The line that the plain printer makes.
    open spec fn line_of(&self, text: Seq<char>) -> Option<(Level, bool, Seq<char>)> {
        self.simple().line_of(text)
    }

    fn new(verbose: bool, debug: bool) -> (p: TablePrinter) {
        TablePrinter { debug, verbose, sp: SimplePrinter::new(verbose, debug) }
    }

    fn print_file_custom(&self, text: String) -> (line: Option<Line>) {
        self.sp.print_file_custom(text)
    }
}

impl TablePrinter {
    pub closed spec fn is_verbose(&self) -> bool {
        self.verbose
    }

    pub closed spec fn debugging(&self) -> bool {
        self.debug
    }

    /// The printer that puts single files out.
    pub closed spec fn simple(&self) -> SimplePrinter {
        self.sp
    }

    /// The titles of the table.
    pub fn titles(&self) -> (t: Vec<String>)
        ensures
            row_view(t@) == table_titles(),
    {
        let mut t: Vec<String> = Vec::new();
        t.push(String::from_str("File#"));
        t.push(String::from_str("Owner"));
        t.push(String::from_str("ID"));
        assert(row_view(t@) =~= table_titles());
        t
    }

    /// The titles of the table with a column of the caller's own.
    pub fn titles_custom(&self) -> (t: Vec<String>)
        ensures
            row_view(t@) == table_titles_custom(),
    {
        let mut t: Vec<String> = Vec::new();
        t.push(String::from_str("File#"));
        t.push(String::from_str("Owner"));
        t.push(String::from_str("ID"));
        t.push(String::from_str("..."));
        assert(row_view(t@) =~= table_titles_custom());
        t
    }

    /// The rows of the table of `files`, one for each file in order. A
    /// table without rows is not put out.
    pub fn print_files(&self, files: &Vec<FileInfo>) -> (rows: Vec<Vec<String>>)
        requires
            files@.len() < usize::MAX,
        ensures
            rows@.len() == files@.len(),
            forall|i: int|
                0 <= i < files@.len() ==> row_view(#[trigger] rows@[i]@) == table_row(files@, i),
    {
        let mut rows: Vec<Vec<String>> = Vec::new();
        let mut i: usize = 0;
        while i < files.len()
            invariant
                i <= files@.len(),
                files@.len() < usize::MAX,
                rows@.len() == i,
                forall|j: int|
                    0 <= j < i ==> row_view(#[trigger] rows@[j]@) == table_row(files@, j),
            decreases files@.len() - i,
        {
            let mut row: Vec<String> = Vec::new();
            row.push(decimal(i + 1));
            row.push(files[i].owner.clone());
            row.push(files[i].id.clone());
            assert(row_view(row@) =~= table_row(files@, i as int));
            rows.push(row);
            i += 1;
        }
        rows
    }

    /// The rows of the table of `files` with one more cell each, taken from
    /// `extras` in order.
    pub fn print_files_custom(&self, files: &Vec<FileInfo>, extras: &Vec<String>) -> (rows: Vec<
        Vec<String>,
    >)
        requires
            files@.len() < usize::MAX,
            extras@.len() == files@.len(),
        ensures
            rows@.len() == files@.len(),
            forall|i: int|
                0 <= i < files@.len() ==> row_view(#[trigger] rows@[i]@) == table_row(
                    files@,
                    i,
                ).push(extras@[i]@),
    {
        let mut rows: Vec<Vec<String>> = Vec::new();
        let mut i: usize = 0;
        while i < files.len()
            invariant
                i <= files@.len(),
                files@.len() < usize::MAX,
                extras@.len() == files@.len(),
                rows@.len() == i,
                forall|j: int|
                    0 <= j < i ==> row_view(#[trigger] rows@[j]@) == table_row(files@, j).push(
                        extras@[j]@,
                    ),
            decreases files@.len() - i,
        {
            let mut row: Vec<String> = Vec::new();
            row.push(decimal(i + 1));
            row.push(files[i].owner.clone());
            row.push(files[i].id.clone());
            row.push(extras[i].clone());
            assert(row_view(row@) =~= table_row(files@, i as int).push(extras@[i as int]@));
            rows.push(row);
            i += 1;
        }
        rows
    }
}

} // verus!
