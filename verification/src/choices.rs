//! The scan choices a user makes in the graphical front end: the next-scan
//! comparison and the value type of a first scan.

use vstd::prelude::*;
use crate::scan::{range_sides, split_range, FirstScan, NextScan, ANY_TYPES};
use crate::text::{chars_of, string_of, trim, trimmed};
use crate::value::ScanType;

verus! {

/// The next-scan comparison chosen in the UI.
#[derive(Copy, Clone, Debug, PartialEq, Eq, Structural)]
pub enum NextMode {
    Exact,
    NotEqual,
    Greater,
    Less,
    Increased,
    Decreased,
    Changed,
    Unchanged,
}

impl Default for NextMode {
    fn default() -> (r: NextMode)
        ensures
            r == NextMode::Exact,
    {
        NextMode::Exact
    }
}

pub open spec fn next_mode_label(m: NextMode) -> Seq<char> {
    match m {
        NextMode::Exact => "equal to…"@,
        NextMode::NotEqual => "not equal to…"@,
        NextMode::Greater => "greater than…"@,
        NextMode::Less => "less than…"@,
        NextMode::Increased => "increased"@,
        NextMode::Decreased => "decreased"@,
        NextMode::Changed => "changed"@,
        NextMode::Unchanged => "unchanged"@,
    }
}

/// The scan comparison a mode stands for.
pub open spec fn scan_of(m: NextMode) -> NextScan {
    match m {
        NextMode::Exact => NextScan::Eq,
        NextMode::NotEqual => NextScan::Ne,
        NextMode::Greater => NextScan::Gt,
        NextMode::Less => NextScan::Lt,
        NextMode::Increased => NextScan::Increased,
        NextMode::Decreased => NextScan::Decreased,
        NextMode::Changed => NextScan::Changed,
        NextMode::Unchanged => NextScan::Unchanged,
    }
}

impl NextMode {
    pub fn label(self) -> (r: &'static str)
        ensures
            r@ == next_mode_label(self),
    {
        match self {
            NextMode::Exact => "equal to…",
            NextMode::NotEqual => "not equal to…",
            NextMode::Greater => "greater than…",
            NextMode::Less => "less than…",
            NextMode::Increased => "increased",
            NextMode::Decreased => "decreased",
            NextMode::Changed => "changed",
            NextMode::Unchanged => "unchanged",
        }
    }

    /// Whether this comparison reads the value text box.
    pub fn needs_value(self) -> (r: bool)
        ensures
            r == (self == NextMode::Exact || self == NextMode::NotEqual || self
                == NextMode::Greater || self == NextMode::Less),
    {
        matches!(self, NextMode::Exact | NextMode::NotEqual | NextMode::Greater | NextMode::Less)
    }

    /// The scan comparison this mode stands for.
    pub fn scan(self) -> (r: NextScan)
        ensures
            r == scan_of(self),
            r.reads_operand() == (self == NextMode::Exact || self == NextMode::NotEqual || self
                == NextMode::Greater || self == NextMode::Less),
    {
        match self {
            NextMode::Exact => NextScan::Eq,
            NextMode::NotEqual => NextScan::Ne,
            NextMode::Greater => NextScan::Gt,
            NextMode::Less => NextScan::Lt,
            NextMode::Increased => NextScan::Increased,
            NextMode::Decreased => NextScan::Decreased,
            NextMode::Changed => NextScan::Changed,
            NextMode::Unchanged => NextScan::Unchanged,
        }
    }
}

/// Each mode of the next-scan picker stands for the comparison it is
/// labelled with: "greater than" keeps larger values, "less than" smaller
/// ones, "increased" and "decreased" compare with the previous value, and
/// no two modes share a comparison.
pub proof fn law_modes_match_labels(a: NextMode, b: NextMode)
    ensures
        scan_of(NextMode::Greater) == NextScan::Gt,
        scan_of(NextMode::Less) == NextScan::Lt,
        scan_of(NextMode::Exact) == NextScan::Eq,
        scan_of(NextMode::NotEqual) == NextScan::Ne,
        scan_of(NextMode::Increased) == NextScan::Increased,
        scan_of(NextMode::Decreased) == NextScan::Decreased,
        scan_of(NextMode::Changed) == NextScan::Changed,
        scan_of(NextMode::Unchanged) == NextScan::Unchanged,
        scan_of(a) == scan_of(b) ==> a == b,
{
}

/// The value-type selection: one width, or "Any" (unknown type).
#[derive(Copy, Clone, Debug, PartialEq, Eq, Structural)]
pub enum TypeSel {
    Any,
    One(ScanType),
}

impl Default for TypeSel {
    fn default() -> (r: TypeSel)
        ensures
            r == TypeSel::One(ScanType::I32),
    {
        TypeSel::One(ScanType::I32)
    }
}

/// The types a first scan tries for a selection.
pub open spec fn sel_types(s: TypeSel) -> Seq<ScanType> {
    match s {
        TypeSel::Any => ANY_TYPES@,
        TypeSel::One(t) => seq![t],
    }
}

pub open spec fn sel_label(s: TypeSel) -> Seq<char> {
    match s {
        TypeSel::Any => "Any (unknown type)"@,
        TypeSel::One(t) => t.label_text(),
    }
}

impl TypeSel {
    pub fn label(self) -> (r: String)
        ensures
            r@ == sel_label(self),
    {
        match self {
            TypeSel::Any => "Any (unknown type)".to_string(),
            TypeSel::One(t) => t.label().to_string(),
        }
    }

    pub fn is_any(self) -> (r: bool)
        ensures
            r == (self == TypeSel::Any),
    {
        matches!(self, TypeSel::Any)
    }

    /// The types a first scan should try for this selection.
    pub fn types(self) -> (r: Vec<ScanType>)
        ensures
            r@ == sel_types(self),
    {
        match self {
            TypeSel::Any => {
                let mut v: Vec<ScanType> = Vec::new();
                let mut i: usize = 0;
                while i < 6
                    invariant
                        i <= 6,
                        v@ == ANY_TYPES@.subrange(0, i as int),
                    decreases 6 - i,
                {
                    v.push(ANY_TYPES[i]);
                    i = i + 1;
                    assert(v@ =~= ANY_TYPES@.subrange(0, i as int));
                }
                assert(ANY_TYPES@.subrange(0, 6) =~= ANY_TYPES@);
                v
            },
            TypeSel::One(t) => {
                let mut v: Vec<ScanType> = Vec::new();
                v.push(t);
                assert(v@ =~= seq![t]);
                v
            },
        }
    }
}


/// What a scan button starts.
#[derive(Debug)]
pub enum Job {
    /// A first scan.
    First(FirstScan),
    /// A next scan with its operand, where the comparison reads one.
    Next(NextScan, Option<String>),
}

pub open spec fn any_type_msg() -> Seq<char> {
    "Unknown initial value needs a specific type, not “Any”."@
}

pub open spec fn enter_value_msg() -> Seq<char> {
    "Enter a value to scan for."@
}

pub open spec fn first_scan_msg() -> Seq<char> {
    "Do a first scan before narrowing."@
}

pub open spec fn comparison_value_msg() -> Seq<char> {
    "Enter a value for this comparison."@
}

/// Decide which scan a button starts: a first scan (of every address of one
/// type for an unknown initial value, else of the entered value, which must
/// be a number or a range `a..b`), or a next scan in the chosen mode (after a first scan; with
/// the entered number where the mode compares against one). Otherwise the
/// message to show. `value_is_number` says whether the trimmed value text
/// parses as a number.
pub fn scan_job(
    first: bool,
    unknown_initial: bool,
    sel: TypeSel,
    value_text: &str,
    value_is_number: bool,
    has_scanned: bool,
    mode: NextMode,
) -> (r: Result<Job, String>)
    ensures
        first && unknown_initial ==> match sel {
            TypeSel::One(t) => r matches Ok(Job::First(FirstScan::Unknown(u))) && u == t,
            TypeSel::Any => r matches Err(m) && m@ == any_type_msg(),
        },
        first && !unknown_initial ==> if value_is_number || range_sides(value_text@) is Some {
            r matches Ok(Job::First(FirstScan::Value { value, types })) && value@ == trim(
                value_text@,
            ) && types@ == sel_types(sel)
        } else {
            r matches Err(m) && m@ == enter_value_msg()
        },
        !first ==> if !has_scanned {
            r matches Err(m) && m@ == first_scan_msg()
        } else if scan_of(mode).reads_operand() && !value_is_number {
            r matches Err(m) && m@ == comparison_value_msg()
        } else {
            r matches Ok(Job::Next(how, operand)) && how == scan_of(mode) && if scan_of(
                mode,
            ).reads_operand() {
                operand matches Some(v) && v@ == trim(value_text@)
            } else {
                operand is None
            }
        },
{
    if first {
        if unknown_initial {
            match sel {
                TypeSel::One(t) => Ok(Job::First(FirstScan::Unknown(t))),
                TypeSel::Any => Err("Unknown initial value needs a specific type, not “Any”.".to_string()),
            }
        } else if value_is_number || split_range(value_text).is_some() {
            let v = string_of(trimmed(chars_of(value_text).as_slice()).as_slice());
            Ok(Job::First(FirstScan::Value { value: v, types: sel.types() }))
        } else {
            Err("Enter a value to scan for.".to_string())
        }
    } else {
        if !has_scanned {
            return Err("Do a first scan before narrowing.".to_string());
        }
        let how = mode.scan();
        if mode.needs_value() && !value_is_number {
            return Err("Enter a value for this comparison.".to_string());
        }
        let operand = if mode.needs_value() {
            Some(string_of(trimmed(chars_of(value_text).as_slice()).as_slice()))
        } else {
            None
        };
        Ok(Job::Next(how, operand))
    }
}

} // verus!
