//! The task record and its one-line codec: a record is stored as
//! `name,YYYY-MM-DD,interval`, and a valid record read back from its
//! own encoding is unchanged.

use crate::date::Date;
use crate::date::append_date;
use crate::date::date_chars;
use crate::date::date_ok;
use crate::date::lemma_date_chars_clean;
use crate::date::lemma_date_roundtrip;
use crate::date::parse_date;
use crate::date::parse_date_spec;
use crate::date::valid_date;
use crate::errors::ChecklistError;
use crate::text::append_padded;
use crate::text::append_u32;
use crate::text::dec_repr;
use crate::text::is_digit;
use crate::text::lemma_dec_repr;
use crate::text::lemma_split_char_concat;
use crate::text::lemma_split_char_parts;
use crate::text::lemma_split_char_whole;
use crate::text::pad_to;
use crate::text::parse_u32;
use crate::text::parse_u32_spec;
use crate::text::split;
use crate::text::split_char;
use vstd::prelude::*;
use vstd::string::StrSliceExecFns;
use vstd::string::StringExecFns;

verus! {

/// The mathematical value of a task record.
pub struct RecordView {
    pub name: Seq<char>,
    pub due: Date,
    pub interval: u32,
}

/// A name the file format can carry: free of the field separator and
/// of the line separator.
pub open spec fn clean_name(s: Seq<char>) -> bool {
    forall|j: int| 0 <= j < s.len() ==> s[j] != ',' && s[j] != '\n'
}

/// A record the checklist file can hold and give back unchanged.
pub open spec fn wf_record(r: RecordView) -> bool {
    clean_name(r.name) && valid_date(r.due)
}

/// One named task: when it is due, and how many days after completion
/// it comes back (zero for a one-off task).
#[derive(Debug, Clone)]
pub struct TaskRecord {
    name: String,
    due: Date,
    interval: u32,
}

impl View for TaskRecord {
    type V = RecordView;

    closed spec fn view(&self) -> RecordView {
        RecordView { name: self.name@, due: self.due, interval: self.interval }
    }
}

impl DeepView for TaskRecord {
    type V = RecordView;

    open spec fn deep_view(&self) -> RecordView {
        self.view()
    }
}

impl PartialEq for TaskRecord {
    fn eq(&self, other: &TaskRecord) -> (r: bool) {
        self.name == other.name && self.due == other.due && self.interval == other.interval
    }
}

impl vstd::std_specs::cmp::PartialEqSpecImpl for TaskRecord {
    open spec fn obeys_eq_spec() -> bool {
        true
    }

    open spec fn eq_spec(&self, other: &TaskRecord) -> bool {
        self@ == other@
    }
}

/// The stored line of a record: `name,YYYY-MM-DD,interval`, the
/// interval written as its canonical decimal value.
pub open spec fn encode_line(r: RecordView) -> Seq<char> {
    r.name + seq![','] + date_chars(r.due) + seq![','] + dec_repr(r.interval as nat)
}

/// What reading one stored line yields: the line must split on commas
/// into exactly three fields, the second a calendar date, the third a
/// number of days.
pub open spec fn decode_line_spec(line: Seq<char>) -> Result<RecordView, ChecklistError> {
    let parts = split_char(line, ',');
    if parts.len() != 3 {
        Err(ChecklistError::MalformedRecord)
    } else {
        match parse_date_spec(parts[1]) {
            None => Err(ChecklistError::InvalidDate),
            Some(due) => match parse_u32_spec(parts[2]) {
                None => Err(ChecklistError::InvalidInterval),
                Some(interval) => Ok(RecordView { name: parts[0], due, interval }),
            },
        }
    }
}

/// Checks that a name is free of the field and line separators.
pub fn name_ok(s: &str) -> (b: bool)
    ensures
        b == clean_name(s@),
{
    let n = s.unicode_len();
    let mut j: usize = 0;
    while j < n
        invariant
            0 <= j <= n,
            n == s@.len(),
            forall|k: int| 0 <= k < j ==> s@[k] != ',' && s@[k] != '\n',
        decreases n - j,
    {
        let c = s.get_char(j);
        if c == ',' || c == '\n' {
            return false;
        }
        j += 1;
    }
    true
}

impl TaskRecord {
    /// Builds a record, rejecting a name that the file format cannot
    /// carry and a date that is no calendar date.
    pub fn new(name: String, due: Date, interval: u32) -> (res: Result<TaskRecord, ChecklistError>)
        ensures
            match res {
                Ok(r) => r@ == (RecordView { name: name@, due, interval }) && wf_record(r@),
                Err(e) => {
                    &&& !(clean_name(name@) && valid_date(due))
                    &&& e == ChecklistError::MalformedRecord || e == ChecklistError::InvalidDate
                    &&& (e == ChecklistError::MalformedRecord <==> !clean_name(name@))
                },
            },
    {
        if !name_ok(name.as_str()) {
            return Err(ChecklistError::MalformedRecord);
        }
        if !date_ok(&due) {
            return Err(ChecklistError::InvalidDate);
        }
        Ok(TaskRecord { name, due, interval })
    }

    pub fn name(&self) -> (res: &String)
        ensures
            res@ == self@.name,
    {
        &self.name
    }

    pub fn due(&self) -> (res: Date)
        ensures
            res == self@.due,
    {
        self.due
    }

    pub fn interval(&self) -> (res: u32)
        ensures
            res == self@.interval,
    {
        self.interval
    }

    /// Writes the record as its stored line.
    pub fn encode(&self) -> (res: String)
        requires
            valid_date(self@.due),
        ensures
            res@ == encode_line(self@),
    {
        let mut out = self.name.clone();
        out.append(",");
        append_date(&mut out, &self.due);
        out.append(",");
        append_u32(&mut out, self.interval);
        proof {
            reveal_strlit(",");
            assert((",")@ =~= seq![',']);
            assert(out@ =~= encode_line(self@));
        }
        out
    }

    /// Reads a record from one stored line.
    pub fn decode(line: &str) -> (res: Result<TaskRecord, ChecklistError>)
        ensures
            match decode_line_spec(line@) {
                Ok(rv) => res matches Ok(r) && r@ == rv,
                Err(e) => res matches Err(e2) && e2 == e,
            },
            res matches Ok(r) ==> clean_name(r@.name) || exists|j: int|
                0 <= j < line@.len() && line@[j] == '\n',
            res matches Ok(r) ==> valid_date(r@.due),
    {
        proof {
            lemma_split_char_parts(line@, ',');
        }
        let parts = split(line, ',');
        if parts.len() != 3 {
            return Err(ChecklistError::MalformedRecord);
        }
        let due = match parse_date(parts[1].as_str()) {
            Some(d) => d,
            None => {
                return Err(ChecklistError::InvalidDate);
            },
        };
        let interval = match parse_u32(parts[2].as_str()) {
            Some(v) => v,
            None => {
                return Err(ChecklistError::InvalidInterval);
            },
        };
        let name = parts[0].clone();
        proof {
            let sp = split_char(line@, ',');
            assert(name@ == sp[0]);
            if !(exists|j: int| 0 <= j < line@.len() && line@[j] == '\n') {
                assert forall|j: int| 0 <= j < name@.len() implies name@[j] != ',' && name@[j]
                    != '\n' by {
                    assert(line@.contains(sp[0][j]));
                }
            }
        }
        Ok(TaskRecord { name, due, interval })
    }
}

/// The text shown for an interval in the table: the word `once` for a
/// one-off task, the number of days otherwise.
pub open spec fn interval_text(interval: u32) -> Seq<char> {
    if interval == 0 {
        "once"@
    } else {
        dec_repr(interval as nat)
    }
}

/// One table row: the three fields, each left-aligned and padded to its
/// column width, separated by single spaces.
pub open spec fn row_chars(r: RecordView, w1: int, w2: int, w3: int) -> Seq<char> {
    pad_to(r.name, w1) + seq![' '] + pad_to(date_chars(r.due), w2) + seq![' '] + pad_to(
        interval_text(r.interval),
        w3,
    )
}

impl TaskRecord {
    /// Renders the record as one aligned table row.
    pub fn format_row(&self, w1: usize, w2: usize, w3: usize) -> (res: String)
        requires
            valid_date(self@.due),
        ensures
            res@ == row_chars(self@, w1 as int, w2 as int, w3 as int),
    {
        let mut out = String::new();
        append_padded(&mut out, self.name.as_str(), w1);
        out.append(" ");
        let mut ds = String::new();
        append_date(&mut ds, &self.due);
        append_padded(&mut out, ds.as_str(), w2);
        out.append(" ");
        if self.interval == 0 {
            append_padded(&mut out, "once", w3);
            proof {
                reveal_strlit(" ");
                assert((" ")@ =~= seq![' ']);
                assert(out@ =~= row_chars(self@, w1 as int, w2 as int, w3 as int));
            }
        } else {
            let mut ivs = String::new();
            append_u32(&mut ivs, self.interval);
            append_padded(&mut out, ivs.as_str(), w3);
            proof {
                reveal_strlit(" ");
                assert((" ")@ =~= seq![' ']);
                assert(out@ =~= row_chars(self@, w1 as int, w2 as int, w3 as int));
            }
        }
        out
    }

    /// The table text of this record's interval field.
    pub fn interval_label(&self) -> (res: String)
        ensures
            res@ == interval_text(self@.interval),
    {
        if self.interval == 0 {
            let res = String::from_str("once");
            res
        } else {
            let mut ivs = String::new();
            append_u32(&mut ivs, self.interval);
            ivs
        }
    }
}

/// Every character of an all-digit string is a digit, hence no comma.
proof fn lemma_digits_clean(s: Seq<char>)
    requires
        forall|j: int| 0 <= j < s.len() ==> is_digit(s[j]),
    ensures
        forall|j: int| 0 <= j < s.len() ==> s[j] != ',',
{
    assert forall|j: int| 0 <= j < s.len() implies s[j] != ',' by {
        assert(is_digit(s[j]));
    }
}

/// The stored line of a well-formed record is one non-empty line: it
/// carries no newline.
pub proof fn lemma_encode_line_clean(r: RecordView)
    requires
        wf_record(r),
    ensures
        encode_line(r).len() > 0,
        forall|j: int| 0 <= j < encode_line(r).len() ==> encode_line(r)[j] != '\n',
{
    let s = encode_line(r);
    let date_s = date_chars(r.due);
    let int_s = dec_repr(r.interval as nat);
    lemma_date_chars_clean(r.due);
    lemma_dec_repr(r.interval as nat);
    let n1 = r.name.len() as int;
    assert forall|j: int| 0 <= j < s.len() implies s[j] != '\n' by {
        if j < n1 {
            assert(s[j] == r.name[j]);
        } else if j == n1 {
            assert(s[j] == ',');
        } else if j < n1 + 1 + 10 {
            assert(s[j] == date_s[j - n1 - 1]);
        } else if j == n1 + 11 {
            assert(s[j] == ',');
        } else {
            assert(s[j] == int_s[j - n1 - 12]);
            assert(is_digit(int_s[j - n1 - 12]));
        }
    }
}

/// Round trip: a record the file can hold, written as its line and
/// read back, is the same record.
pub proof fn lemma_record_roundtrip(r: RecordView)
    requires
        wf_record(r),
    ensures
        decode_line_spec(encode_line(r)) == Ok::<RecordView, ChecklistError>(r),
{
    let date_s = date_chars(r.due);
    let int_s = dec_repr(r.interval as nat);
    lemma_date_chars_clean(r.due);
    lemma_dec_repr(r.interval as nat);
    lemma_digits_clean(int_s);
    lemma_split_char_concat(r.name, date_s + seq![','] + int_s, ',');
    lemma_split_char_concat(date_s, int_s, ',');
    lemma_split_char_whole(int_s, ',');
    assert(encode_line(r) =~= r.name + seq![','] + (date_s + seq![','] + int_s));
    assert(split_char(encode_line(r), ',') =~~= seq![r.name] + (seq![date_s] + seq![int_s]));
    let sp = split_char(encode_line(r), ',');
    assert(sp.len() == 3);
    assert(sp[0] == r.name);
    assert(sp[1] == date_s);
    assert(sp[2] == int_s);
    lemma_date_roundtrip(r.due);
    assert(parse_u32_spec(int_s) == Some(r.interval));
    assert(decode_line_spec(encode_line(r)) == Ok::<RecordView, ChecklistError>(RecordView {
        name: r.name,
        due: r.due,
        interval: r.interval,
    }));
    assert(RecordView { name: r.name, due: r.due, interval: r.interval } == r);
}

} // verus!
