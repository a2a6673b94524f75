//! The cell model and the cell normalizer.
//!
//! A source cell is modeled as plain values: text, a number's decimal
//! rendering, an integer, a boolean, a decoded timestamp, an error code, or
//! emptiness.  The normalizer turns one cell into its canonical text, or
//! into nothing for cells that are skipped.
//!
//! Of the two historical normalization policies this library implements the
//! verbatim-text, all-textual one: text is kept unchanged (no space
//! stripping), and numeric cells are rendered as decimal text rather than
//! written as native numbers.

use vstd::prelude::*;

use crate::render::{dec_int, four_digits, render_four, render_i64, render_two, two_digits};

verus! {

/// A calendar date and time held as plain field values, always in range:
/// a four-digit year, a real month and day, and a time of day.
#[derive(Clone, Copy, Debug)]
pub struct Stamp {
    year: u16,
    month: u8,
    day: u8,
    hour: u8,
    minute: u8,
    second: u8,
}

impl Stamp {
    #[verifier::type_invariant]
    pub closed spec fn inv(self) -> bool {
        &&& self.year < 10000
        &&& 1 <= self.month <= 12
        &&& 1 <= self.day <= 31
        &&& self.hour < 24
        &&& self.minute < 60
        &&& self.second < 60
    }

    pub closed spec fn spec_year(self) -> nat {
        self.year as nat
    }

    pub closed spec fn spec_month(self) -> nat {
        self.month as nat
    }

    pub closed spec fn spec_day(self) -> nat {
        self.day as nat
    }

    pub closed spec fn spec_hour(self) -> nat {
        self.hour as nat
    }

    pub closed spec fn spec_minute(self) -> nat {
        self.minute as nat
    }

    pub closed spec fn spec_second(self) -> nat {
        self.second as nat
    }

    /// Builds a stamp when every field is in calendar range, and nothing
    /// otherwise.
    pub fn checked(year: i32, month: u32, day: u32, hour: u32, minute: u32, second: u32) -> (r:
        Option<Stamp>)
        ensures
            ({
                let ok = 0 <= year < 10000 && 1 <= month <= 12 && 1 <= day <= 31 && hour < 24
                    && minute < 60 && second < 60;
                match r {
                    Some(s) => ok && s.spec_year() == year && s.spec_month() == month
                        && s.spec_day() == day && s.spec_hour() == hour && s.spec_minute() == minute
                        && s.spec_second() == second,
                    None => !ok,
                }
            }),
    {
        if 0 <= year && year < 10000 && 1 <= month && month <= 12 && 1 <= day && day <= 31 && hour
            < 24 && minute < 60 && second < 60 {
            Some(
                Stamp {
                    year: year as u16,
                    month: month as u8,
                    day: day as u8,
                    hour: hour as u8,
                    minute: minute as u8,
                    second: second as u8,
                },
            )
        } else {
            None
        }
    }
}

/// The compact rendering of a stamp used in output file names:
/// `MMDDYYHHMMSS` (two digits each, the year reduced to its last two).
pub open spec fn stamp_compact_text(s: Stamp) -> Seq<char> {
    two_digits(s.spec_month()) + two_digits(s.spec_day()) + two_digits(s.spec_year() % 100)
        + two_digits(s.spec_hour()) + two_digits(s.spec_minute()) + two_digits(s.spec_second())
}

impl Stamp {
    /// The earliest stamp the library renders: the first day of year one,
    /// midnight.
    pub fn earliest() -> (r: Stamp)
        ensures
            r.spec_year() == 1,
            r.spec_month() == 1,
            r.spec_day() == 1,
            r.spec_hour() == 0,
            r.spec_minute() == 0,
            r.spec_second() == 0,
    {
        Stamp { year: 1, month: 1, day: 1, hour: 0, minute: 0, second: 0 }
    }

    /// Renders this stamp as `MMDDYYHHMMSS`.
    pub fn render_compact(&self) -> (r: String)
        ensures
            r@ == stamp_compact_text(*self),
    {
        proof {
            use_type_invariant(*self);
        }
        let mut out = render_two(self.month);
        out.append(render_two(self.day).as_str());
        out.append(render_two((self.year % 100) as u8).as_str());
        out.append(render_two(self.hour).as_str());
        out.append(render_two(self.minute).as_str());
        out.append(render_two(self.second).as_str());
        proof {
            assert(out@ =~= stamp_compact_text(*self));
        }
        out
    }
}

/// The error codes a spreadsheet cell can hold.
#[derive(Clone, Copy, Debug, PartialEq, Eq, Structural)]
pub enum CellError {
    Div0,
    NA,
    Name,
    Null,
    Num,
    Ref,
    Value,
    GettingData,
}

/// One source cell, as plain values.  A `Number` carries the decimal
/// rendering of the source's floating-point value, produced where the cell
/// was read; a `Timestamp` carries its decoded calendar fields, or nothing
/// when the underlying value could not be decoded into a calendar date.
#[derive(Debug)]
pub enum CellValue {
    Text(String),
    Number(String),
    Integer(i64),
    Boolean(bool),
    Timestamp(Option<Stamp>),
    ErrorValue(CellError),
    Empty,
}

/// The literal rendering of a boolean cell.
pub open spec fn bool_text(b: bool) -> Seq<char> {
    if b {
        seq!['T', 'R', 'U', 'E']
    } else {
        seq!['F', 'A', 'L', 'S', 'E']
    }
}

/// The short name of an error code, as rendered into output cells.
pub open spec fn error_code_text(e: CellError) -> Seq<char> {
    match e {
        CellError::Div0 => seq!['D', 'i', 'v', '0'],
        CellError::NA => seq!['N', 'A'],
        CellError::Name => seq!['N', 'a', 'm', 'e'],
        CellError::Null => seq!['N', 'u', 'l', 'l'],
        CellError::Num => seq!['N', 'u', 'm'],
        CellError::Ref => seq!['R', 'e', 'f'],
        CellError::Value => seq!['V', 'a', 'l', 'u', 'e'],
        CellError::GettingData => seq!['G', 'e', 't', 't', 'i', 'n', 'g', 'D', 'a', 't', 'a'],
    }
}

/// The full rendering of an error cell: `Error: ` before the code.
pub open spec fn error_text(e: CellError) -> Seq<char> {
    seq!['E', 'r', 'r', 'o', 'r', ':', ' '] + error_code_text(e)
}

/// The rendering of a timestamp: `YYYY-MM-DD HH:MM:SS`.
pub open spec fn stamp_text(s: Stamp) -> Seq<char> {
    four_digits(s.spec_year()) + seq!['-'] + two_digits(s.spec_month()) + seq!['-'] + two_digits(
        s.spec_day(),
    ) + seq![' '] + two_digits(s.spec_hour()) + seq![':'] + two_digits(s.spec_minute()) + seq![':']
        + two_digits(s.spec_second())
}

/// The canonical rendering of one cell: its text when the cell is written
/// to the output, and nothing when the cell is skipped (empty cells, and
/// timestamps that could not be decoded).
pub open spec fn rendered(c: CellValue) -> Option<Seq<char>> {
    match c {
        CellValue::Text(s) => Some(s@),
        CellValue::Number(s) => Some(s@),
        CellValue::Integer(i) => Some(dec_int(i as int)),
        CellValue::Boolean(b) => Some(bool_text(b)),
        CellValue::Timestamp(o) => match o {
            Some(st) => Some(stamp_text(st)),
            None => None,
        },
        CellValue::ErrorValue(e) => Some(error_text(e)),
        CellValue::Empty => None,
    }
}

/// Renders a timestamp as `YYYY-MM-DD HH:MM:SS`.
pub fn render_stamp(s: &Stamp) -> (r: String)
    ensures
        r@ == stamp_text(*s),
{
    proof {
        use_type_invariant(*s);
    }
    let mut out = render_four(s.year);
    out.append("-");
    out.append(render_two(s.month).as_str());
    out.append("-");
    out.append(render_two(s.day).as_str());
    out.append(" ");
    out.append(render_two(s.hour).as_str());
    out.append(":");
    out.append(render_two(s.minute).as_str());
    out.append(":");
    out.append(render_two(s.second).as_str());
    proof {
        reveal_strlit("-");
        reveal_strlit(" ");
        reveal_strlit(":");
        assert("-"@ =~= seq!['-']);
        assert(" "@ =~= seq![' ']);
        assert(":"@ =~= seq![':']);
        assert(out@ =~= stamp_text(*s));
    }
    out
}

/// The short name of an error code.
pub fn error_code_str(e: CellError) -> (r: &'static str)
    ensures
        r@ == error_code_text(e),
{
    match e {
        CellError::Div0 => {
            proof {
                reveal_strlit("Div0");
                assert("Div0"@ =~= error_code_text(CellError::Div0));
            }
            "Div0"
        },
        CellError::NA => {
            proof {
                reveal_strlit("NA");
                assert("NA"@ =~= error_code_text(CellError::NA));
            }
            "NA"
        },
        CellError::Name => {
            proof {
                reveal_strlit("Name");
                assert("Name"@ =~= error_code_text(CellError::Name));
            }
            "Name"
        },
        CellError::Null => {
            proof {
                reveal_strlit("Null");
                assert("Null"@ =~= error_code_text(CellError::Null));
            }
            "Null"
        },
        CellError::Num => {
            proof {
                reveal_strlit("Num");
                assert("Num"@ =~= error_code_text(CellError::Num));
            }
            "Num"
        },
        CellError::Ref => {
            proof {
                reveal_strlit("Ref");
                assert("Ref"@ =~= error_code_text(CellError::Ref));
            }
            "Ref"
        },
        CellError::Value => {
            proof {
                reveal_strlit("Value");
                assert("Value"@ =~= error_code_text(CellError::Value));
            }
            "Value"
        },
        CellError::GettingData => {
            proof {
                reveal_strlit("GettingData");
                assert("GettingData"@ =~= error_code_text(CellError::GettingData));
            }
            "GettingData"
        },
    }
}

/// The cell normalizer: the canonical text of one cell, or nothing for a
/// cell that is skipped.  Pure; matches `rendered` exactly.
pub fn render_cell(c: &CellValue) -> (r: Option<String>)
    ensures
        match r {
            Some(s) => rendered(*c) == Some(s@),
            None => rendered(*c) is None,
        },
{
    match c {
        CellValue::Text(s) => Some(s.clone()),
        CellValue::Number(s) => Some(s.clone()),
        CellValue::Integer(i) => Some(render_i64(*i)),
        CellValue::Boolean(b) => {
            proof {
                reveal_strlit("TRUE");
                reveal_strlit("FALSE");
                assert("TRUE"@ =~= bool_text(true));
                assert("FALSE"@ =~= bool_text(false));
            }
            if *b {
                Some("TRUE".to_owned())
            } else {
                Some("FALSE".to_owned())
            }
        },
        CellValue::Timestamp(o) => match o {
            Some(st) => Some(render_stamp(st)),
            None => None,
        },
        CellValue::ErrorValue(e) => {
            let mut s = "Error: ".to_owned();
            s.append(error_code_str(*e));
            proof {
                reveal_strlit("Error: ");
                assert("Error: "@ =~= seq!['E', 'r', 'r', 'o', 'r', ':', ' ']);
                assert(s@ =~= error_text(*e));
            }
            Some(s)
        },
        CellValue::Empty => None,
    }
}

} // verus!
