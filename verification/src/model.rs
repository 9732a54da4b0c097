use vstd::prelude::*;

verus! {

/// A calendar month; issues carry one and the renderer prints its name.
#[derive(Copy, Clone, PartialEq, Eq, Structural)]
pub enum Month {
    January,
    February,
    March,
    April,
    May,
    June,
    July,
    August,
    September,
    October,
    November,
    December,
}

pub open spec fn spec_month_name(m: Month) -> Seq<char> {
    match m {
        Month::January => "January"@,
        Month::February => "February"@,
        Month::March => "March"@,
        Month::April => "April"@,
        Month::May => "May"@,
        Month::June => "June"@,
        Month::July => "July"@,
        Month::August => "August"@,
        Month::September => "September"@,
        Month::October => "October"@,
        Month::November => "November"@,
        Month::December => "December"@,
    }
}

impl Month {
    /// The English name of the month, as it appears in the rendered index.
    pub fn name(&self) -> (r: &'static str)
        ensures
            r@ == spec_month_name(*self),
    {
        match self {
            Month::January => "January",
            Month::February => "February",
            Month::March => "March",
            Month::April => "April",
            Month::May => "May",
            Month::June => "June",
            Month::July => "July",
            Month::August => "August",
            Month::September => "September",
            Month::October => "October",
            Month::November => "November",
            Month::December => "December",
        }
    }
}

/// Every failure aborts the whole run; these are the stages at which it can happen.
#[derive(Copy, Clone, PartialEq, Eq, Structural, Debug)]
pub enum Error {
    /// The catalog is missing, malformed, or an issue fails validation.
    InputError,
    /// A referenced file could not be read while computing its digests.
    HashIoError,
    /// The output directory or index document could not be written.
    OutputError,
    /// A referenced file could not be copied to the publish directory.
    CopyError,
}

/// A reference to externally stored content; its identity is its name.
pub struct File(String);

impl View for File {
    type V = Seq<char>;

    closed spec fn view(&self) -> Seq<char> {
        self.0@
    }
}

impl File {
    pub fn new(name: String) -> (f: File)
        ensures
            f@ == name@,
    {
        File(name)
    }

    pub fn name(&self) -> (r: &str)
        ensures
            r@ == self@,
    {
        self.0.as_str()
    }
}

/// The name of each file in a sequence, in order.
pub open spec fn file_views(s: Seq<File>) -> Seq<Seq<char>> {
    s.map_values(|f: File| f@)
}

/// The ordered file list of one issue.
pub struct Files(Vec<File>);

impl View for Files {
    type V = Seq<Seq<char>>;

    closed spec fn view(&self) -> Seq<Seq<char>> {
        file_views(self.0@)
    }
}

impl Files {
    pub fn new(files: Vec<File>) -> (r: Files)
        ensures
            r@ == file_views(files@),
    {
        Files(files)
    }

    pub fn inner(&self) -> (r: &[File])
        ensures
            file_views(r@) == self@,
    {
        self.0.as_slice()
    }

    pub fn len(&self) -> (n: usize)
        ensures
            n == self@.len(),
    {
        self.0.len()
    }
}

/// The mathematical value of an `Issue`.
pub ghost struct IssueV {
    pub volume: u8,
    pub year: u16,
    pub month: Month,
    pub description: Seq<char>,
    pub files: Seq<Seq<char>>,
}

/// One publication entry: volume, year, month, description, and a non-empty file list.
///
/// Equality and ordering between issues go by the volume number alone; the
/// catalog's authoring discipline keeps volumes unique, so nothing more is
/// compared. The comparator `le_by_volume` makes that explicit.
pub struct Issue {
    volume: u8,
    year: u16,
    month: Month,
    description: String,
    files: Files,
}

impl View for Issue {
    type V = IssueV;

    closed spec fn view(&self) -> IssueV {
        IssueV {
            volume: self.volume,
            year: self.year,
            month: self.month,
            description: self.description@,
            files: self.files@,
        }
    }
}

/// The value of each issue in a sequence, in order.
pub open spec fn issue_views(s: Seq<Issue>) -> Seq<IssueV> {
    s.map_values(|i: Issue| i@)
}

impl Issue {
    /// Every issue references at least one file.
    #[verifier::type_invariant]
    pub closed spec fn wf(self) -> bool {
        self.files@.len() > 0
    }

    /// Builds an issue; an empty file list fails validation, since rendering
    /// links the first file as the issue's primary download.
    pub fn new(volume: u8, year: u16, month: Month, description: String, files: Files) -> (r:
        Result<Issue, Error>)
        ensures
            files@.len() > 0 ==> r is Ok && r->Ok_0@ == (IssueV {
                volume,
                year,
                month,
                description: description@,
                files: files@,
            }),
            files@.len() == 0 ==> r is Err && r->Err_0 == Error::InputError,
    {
        if files.len() == 0 {
            Err(Error::InputError)
        } else {
            Ok(Issue { volume, year, month, description, files })
        }
    }

    pub fn volume(&self) -> (v: u8)
        ensures
            v == self@.volume,
    {
        self.volume
    }

    pub fn year(&self) -> (y: u16)
        ensures
            y == self@.year,
    {
        self.year
    }

    pub fn month(&self) -> (m: Month)
        ensures
            m == self@.month,
    {
        self.month
    }

    pub fn description(&self) -> (d: &str)
        ensures
            d@ == self@.description,
    {
        self.description.as_str()
    }

    pub fn files(&self) -> (f: &Files)
        ensures
            f@ == self@.files,
            f@.len() > 0,
    {
        proof {
            use_type_invariant(self);
        }
        &self.files
    }

    pub fn into_files(self) -> (f: Files)
        ensures
            f@ == self@.files,
            f@.len() > 0,
    {
        proof {
            use_type_invariant(&self);
        }
        self.files
    }

    /// The ordering the sort uses: by volume number only.
    pub fn le_by_volume(&self, other: &Issue) -> (r: bool)
        ensures
            r == (self@.volume <= other@.volume),
    {
        self.volume <= other.volume
    }
}

/// The mathematical value of a `Year` grouping unit.
pub ghost struct YearV {
    pub year: u16,
    pub issues: Seq<IssueV>,
}

/// One contiguous run of same-year issues after the volume sort — not
/// necessarily every issue of that calendar year.
pub struct Year(u16, Vec<Issue>);

impl View for Year {
    type V = YearV;

    closed spec fn view(&self) -> YearV {
        YearV { year: self.0, issues: issue_views(self.1@) }
    }
}

/// The value of each year entry in a sequence, in order.
pub open spec fn year_views(s: Seq<Year>) -> Seq<YearV> {
    s.map_values(|y: Year| y@)
}

impl Year {
    pub(crate) fn make(year: u16, issues: Vec<Issue>) -> (r: Year)
        ensures
            r@ == (YearV { year, issues: issue_views(issues@) }),
    {
        Year(year, issues)
    }

    pub fn inner(&self) -> (r: (u16, &[Issue]))
        ensures
            r.0 == self@.year,
            issue_views(r.1@) == self@.issues,
    {
        (self.0, self.1.as_slice())
    }
}

/// The fully grouped, render-ready structure: ordered `Year` entries.
pub struct Mirror(Vec<Year>);

impl View for Mirror {
    type V = Seq<YearV>;

    closed spec fn view(&self) -> Seq<YearV> {
        year_views(self.0@)
    }
}

impl Mirror {
    pub(crate) fn make(years: Vec<Year>) -> (r: Mirror)
        ensures
            r@ == year_views(years@),
    {
        Mirror(years)
    }

    pub fn inner(&self) -> (r: &[Year])
        ensures
            year_views(r@) == self@,
    {
        self.0.as_slice()
    }
}

/// The raw flat catalog of issues, before sorting and grouping.
pub struct Config(pub(crate) Vec<Issue>);

impl View for Config {
    type V = Seq<IssueV>;

    closed spec fn view(&self) -> Seq<IssueV> {
        issue_views(self.0@)
    }
}

impl Config {
    pub fn new(issues: Vec<Issue>) -> (c: Config)
        ensures
            c@ == issue_views(issues@),
    {
        Config(issues)
    }

    pub(crate) proof fn view_is(&self)
        ensures
            self@ == issue_views(self.0@),
    {
    }
}

} // verus!
