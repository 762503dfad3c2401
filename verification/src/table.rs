//! The presenter: renders the loaded checklist as an aligned text
//! table and decides which rows are overdue. Styling an overdue row is
//! the caller's business; the table only carries the flag.

use crate::date::Date;
use crate::date::date_before;
use crate::date::date_lt;
use crate::errors::ChecklistError;
use crate::record::RecordView;
use crate::record::interval_text;
use crate::record::row_chars;
use crate::record::wf_record;
use crate::store::load;
use crate::store::load_spec;
use crate::text::append_padded;
use crate::text::dash_line;
use crate::text::dashes;
use crate::text::lemma_dec_repr;
use crate::text::lemma_dec_repr_len;
use crate::text::pad_to;
use crate::text::pow10;
use vstd::prelude::*;
use vstd::string::StrSliceExecFns;
use vstd::string::StringExecFns;

verus! {

pub open spec fn max_i(a: int, b: int) -> int {
    if a >= b {
        a
    } else {
        b
    }
}

/// Width of the task column: the `task` header label or the longest
/// name, whichever is longer.
pub open spec fn name_col(rs: Seq<RecordView>) -> int
    decreases rs.len(),
{
    if rs.len() == 0 {
        4
    } else {
        max_i(rs[0].name.len() as int, name_col(rs.drop_first()))
    }
}

/// Width of the date column: the `due until` header label alone, or
/// the ten characters of any date.
pub open spec fn date_col(rs: Seq<RecordView>) -> int {
    if rs.len() == 0 {
        9
    } else {
        10
    }
}

/// Width of the interval column: the `interval` header label or the
/// longest rendered interval, whichever is longer.
pub open spec fn interval_col(rs: Seq<RecordView>) -> int
    decreases rs.len(),
{
    if rs.len() == 0 {
        8
    } else {
        max_i(interval_text(rs[0].interval).len() as int, interval_col(rs.drop_first()))
    }
}

/// The header row over the three columns.
pub open spec fn header_chars(w1: int, w2: int, w3: int) -> Seq<char> {
    pad_to("task"@, w1) + seq![' '] + pad_to("due until"@, w2) + seq![' '] + pad_to(
        "interval"@,
        w3,
    )
}

/// One rendered row, and whether its task is overdue.
#[derive(Debug)]
pub struct ListRow {
    pub text: String,
    pub overdue: bool,
}

/// The rendered table: a header row, a rule, one row per record.
#[derive(Debug)]
pub struct Listing {
    pub header: String,
    pub rule: String,
    pub rows: Vec<ListRow>,
}

proof fn lemma_name_col_lb(rs: Seq<RecordView>)
    ensures
        name_col(rs) >= 4,
    decreases rs.len(),
{
    if rs.len() == 0 {
    } else {
        lemma_name_col_lb(rs.drop_first());
    }
}

proof fn lemma_interval_col_lb(rs: Seq<RecordView>)
    ensures
        interval_col(rs) >= 8,
    decreases rs.len(),
{
    if rs.len() == 0 {
    } else {
        lemma_interval_col_lb(rs.drop_first());
    }
}

/// A rendered interval is one to ten characters.
pub proof fn lemma_interval_text_len(iv: u32)
    ensures
        1 <= interval_text(iv).len() <= 10,
{
    if iv == 0 {
        reveal_strlit("once");
    } else {
        reveal_with_fuel(pow10, 11);
        assert(pow10(10) == 10000000000);
        lemma_dec_repr_len(iv as nat, 10);
        lemma_dec_repr(iv as nat);
    }
}

/// Lists the checklist: fails exactly where loading fails; otherwise
/// renders the header, the rule, and one aligned row per record, a row
/// flagged overdue exactly when its due date lies strictly before the
/// given current date. The content must leave the rule line's length
/// some headroom in `usize`; any content that fits in memory does.
pub fn list(content: &str, today: Date) -> (res: Result<Listing, ChecklistError>)
    requires
        content@.len() + 32 <= usize::MAX,
    ensures
        match load_spec(content@) {
            Err(e) => res matches Err(e2) && e2 == e,
            Ok(rs) => res matches Ok(l) && l.header@ == header_chars(
                name_col(rs),
                date_col(rs),
                interval_col(rs),
            ) && l.rule@ == dashes(name_col(rs) + date_col(rs) + interval_col(rs) + 2)
                && l.rows@.len() == rs.len() && (forall|i: int|
                0 <= i < rs.len() ==> (#[trigger] l.rows@[i]).text@ == row_chars(
                    rs[i],
                    name_col(rs),
                    date_col(rs),
                    interval_col(rs),
                )) && (forall|i: int|
                0 <= i < rs.len() ==> ((#[trigger] l.rows@[i]).overdue <==> date_lt(
                    rs[i].due,
                    today,
                ))),
        },
{
    let records = match load(content) {
        Ok(v) => v,
        Err(e) => {
            return Err(e);
        },
    };
    let ghost rs = records.deep_view();
    let ghost clen = content@.len() as int;
    let mut w1: usize = 4;
    let mut i: usize = 0;
    proof {
        assert(rs.skip(0) =~= rs);
        lemma_name_col_lb(rs);
    }
    while i < records.len()
        invariant
            0 <= i <= records.len(),
            rs == records.deep_view(),
            clen == content@.len() as int,
            clen + 32 <= usize::MAX,
            forall|j: int|
                0 <= j < rs.len() ==> wf_record(#[trigger] rs[j]) && rs[j].name.len() <= clen,
            4 <= w1,
            w1 as int <= max_i(4, clen),
            name_col(rs) == max_i(w1 as int, name_col(rs.skip(i as int))),
        decreases records.len() - i,
    {
        proof {
            assert(rs.skip(i as int)[0] == rs[i as int]);
            assert(rs.skip(i as int).drop_first() =~= rs.skip(i as int + 1));
        }
        let len = records[i].name().as_str().unicode_len();
        if len > w1 {
            w1 = len;
        }
        i += 1;
    }
    proof {
        assert(rs.skip(records.len() as int) =~= Seq::<RecordView>::empty());
        assert(name_col(rs) == w1 as int);
    }
    let w2: usize = if records.len() == 0 {
        9
    } else {
        10
    };
    let mut w3: usize = 8;
    let mut k: usize = 0;
    proof {
        assert(rs.skip(0) =~= rs);
        lemma_interval_col_lb(rs);
    }
    while k < records.len()
        invariant
            0 <= k <= records.len(),
            rs == records.deep_view(),
            8 <= w3 <= 10,
            interval_col(rs) == max_i(w3 as int, interval_col(rs.skip(k as int))),
        decreases records.len() - k,
    {
        proof {
            assert(rs.skip(k as int)[0] == rs[k as int]);
            assert(rs.skip(k as int).drop_first() =~= rs.skip(k as int + 1));
            lemma_interval_text_len(rs[k as int].interval);
        }
        let lab = records[k].interval_label();
        let len = lab.as_str().unicode_len();
        if len > w3 {
            w3 = len;
        }
        k += 1;
    }
    proof {
        assert(rs.skip(records.len() as int) =~= Seq::<RecordView>::empty());
        assert(interval_col(rs) == w3 as int);
    }
    let mut header = String::new();
    append_padded(&mut header, "task", w1);
    header.append(" ");
    append_padded(&mut header, "due until", w2);
    header.append(" ");
    append_padded(&mut header, "interval", w3);
    proof {
        reveal_strlit(" ");
        assert((" ")@ =~= seq![' ']);
        assert(header@ =~= header_chars(w1 as int, w2 as int, w3 as int));
    }
    let total = w1 + w2 + w3 + 2;
    let rule = dash_line(total);
    let mut rows: Vec<ListRow> = Vec::new();
    let mut m: usize = 0;
    while m < records.len()
        invariant
            0 <= m <= records.len(),
            rs == records.deep_view(),
            forall|j: int|
                0 <= j < rs.len() ==> wf_record(#[trigger] rs[j]) && rs[j].name.len() <= clen,
            rows@.len() == m,
            name_col(rs) == w1 as int,
            date_col(rs) == w2 as int,
            interval_col(rs) == w3 as int,
            forall|j: int|
                0 <= j < m ==> (#[trigger] rows@[j]).text@ == row_chars(
                    rs[j],
                    w1 as int,
                    w2 as int,
                    w3 as int,
                ) && (rows@[j].overdue <==> date_lt(rs[j].due, today)),
        decreases records.len() - m,
    {
        proof {
            assert(records[m as int]@ == rs[m as int]);
        }
        let text = records[m].format_row(w1, w2, w3);
        let due = records[m].due();
        let overdue = date_before(&due, &today);
        rows.push(ListRow { text, overdue });
        m += 1;
    }
    Ok(Listing { header, rule, rows })
}

} // verus!
