//! The checklist store: how a whole file content is read as a sequence
//! of records, and the line scan that the mutating commands share.
//! Reading is fail-closed: the first bad line is the result, and no
//! command works on a checklist it cannot read in full.

use crate::errors::ChecklistError;
use crate::record::RecordView;
use crate::record::TaskRecord;
use crate::record::clean_name;
use crate::record::decode_line_spec;
use crate::record::wf_record;
use crate::text::lemma_split_char_parts;
use crate::text::split;
use crate::text::split_char;
use crate::text::str_eq;
use vstd::prelude::*;

verus! {

/// Reading a sequence of lines: every non-empty line must decode, the
/// first failure is the result.
pub open spec fn load_rec(ls: Seq<Seq<char>>) -> Result<Seq<RecordView>, ChecklistError>
    decreases ls.len(),
{
    if ls.len() == 0 {
        Ok(Seq::<RecordView>::empty())
    } else if ls[0].len() == 0 {
        load_rec(ls.drop_first())
    } else {
        match decode_line_spec(ls[0]) {
            Err(e) => Err(e),
            Ok(r) => match load_rec(ls.drop_first()) {
                Err(e) => Err(e),
                Ok(rest) => Ok(seq![r] + rest),
            },
        }
    }
}

/// What a whole file content holds: its lines, read fail-closed.
pub open spec fn load_spec(content: Seq<char>) -> Result<Seq<RecordView>, ChecklistError> {
    load_rec(split_char(content, '\n'))
}

/// Some record in the sequence bears this name.
pub open spec fn has_name(rs: Seq<RecordView>, name: Seq<char>) -> bool {
    exists|i: int| 0 <= i < rs.len() && rs[i].name == name
}

/// Records read from newline-free lines are well formed, and no name
/// outgrows its line.
pub proof fn lemma_load_rec_props(ls: Seq<Seq<char>>, bound: int)
    requires
        forall|k: int, j: int| 0 <= k < ls.len() && 0 <= j < ls[k].len() ==> ls[k][j] != '\n',
        forall|k: int| 0 <= k < ls.len() ==> ls[k].len() <= bound,
    ensures
        load_rec(ls) matches Ok(rs) ==> forall|i: int|
            0 <= i < rs.len() ==> wf_record(#[trigger] rs[i]) && rs[i].name.len() <= bound,
    decreases ls.len(),
{
    if ls.len() == 0 {
    } else {
        assert forall|k: int, j: int|
            0 <= k < ls.drop_first().len() && 0 <= j
                < ls.drop_first()[k].len() implies ls.drop_first()[k][j] != '\n'
            && ls.drop_first()[k].len() <= bound by {
            assert(ls.drop_first()[k] == ls[k + 1]);
        }
        lemma_load_rec_props(ls.drop_first(), bound);
        if ls[0].len() == 0 {
        } else {
            match decode_line_spec(ls[0]) {
                Err(_) => {},
                Ok(r) => {
                    lemma_split_char_parts(ls[0], ',');
                    let parts = split_char(ls[0], ',');
                    if parts.len() == 3 {
                        assert(r.name == parts[0]);
                        assert forall|j: int| 0 <= j < r.name.len() implies r.name[j] != ','
                            && r.name[j] != '\n' by {
                            assert(ls[0].contains(parts[0][j]));
                        }
                        assert(clean_name(r.name));
                        crate::date::lemma_parse_date_valid(parts[1]);
                        match load_rec(ls.drop_first()) {
                            Err(_) => {},
                            Ok(rest) => {
                                assert forall|i: int|
                                    0 <= i < (seq![r] + rest).len() implies wf_record(
                                    #[trigger] (seq![r] + rest)[i],
                                ) && (seq![r] + rest)[i].name.len() <= bound by {
                                    if i > 0 {
                                        assert((seq![r] + rest)[i] == rest[i - 1]);
                                    }
                                }
                            },
                        }
                    }
                },
            }
        }
    }
}

/// Prepending one readable line to a readable content prepends its
/// record to what the content holds.
pub proof fn lemma_load_prepend(line: Seq<char>, content: Seq<char>)
    requires
        forall|j: int| 0 <= j < line.len() ==> line[j] != '\n',
        line.len() > 0,
        decode_line_spec(line) is Ok,
    ensures
        load_spec(line + seq!['\n'] + content) == match load_spec(content) {
            Err(e) => Err::<Seq<RecordView>, ChecklistError>(e),
            Ok(rs) => Ok::<Seq<RecordView>, ChecklistError>(
                seq![decode_line_spec(line)->Ok_0] + rs,
            ),
        },
{
    crate::text::lemma_split_char_concat(line, content, '\n');
    let ls = split_char(line + seq!['\n'] + content, '\n');
    assert(ls =~~= seq![line] + split_char(content, '\n'));
    assert(ls[0] == line);
    assert(ls.drop_first() =~= split_char(content, '\n'));
}

/// Reads the whole content into records, fail-closed.
pub fn load(content: &str) -> (res: Result<Vec<TaskRecord>, ChecklistError>)
    ensures
        match load_spec(content@) {
            Ok(rs) => res matches Ok(v) && v.deep_view() == rs,
            Err(e) => res matches Err(e2) && e2 == e,
        },
        res matches Ok(v) ==> forall|i: int|
            0 <= i < v.deep_view().len() ==> wf_record(#[trigger] v.deep_view()[i])
                && v.deep_view()[i].name.len() <= content@.len(),
{
    proof {
        lemma_split_char_parts(content@, '\n');
        lemma_load_rec_props(split_char(content@, '\n'), content@.len() as int);
    }
    let lines = split(content, '\n');
    let ghost lsv = lines.deep_view();
    let mut out: Vec<TaskRecord> = Vec::new();
    let mut i: usize = 0;
    proof {
        assert(lsv.skip(0) =~= lsv);
    }
    while i < lines.len()
        invariant
            0 <= i <= lines.len(),
            lsv == lines.deep_view(),
            lsv == split_char(content@, '\n'),
            load_rec(lsv) == match load_rec(lsv.skip(i as int)) {
                Err(e) => Err::<Seq<RecordView>, ChecklistError>(e),
                Ok(rest) => Ok::<Seq<RecordView>, ChecklistError>(out.deep_view() + rest),
            },
        decreases lines.len() - i,
    {
        proof {
            assert(lsv.skip(i as int)[0] == lsv[i as int]);
            assert(lsv.skip(i as int).drop_first() =~= lsv.skip(i as int + 1));
        }
        if !lines[i].as_str().is_empty() {
            match TaskRecord::decode(lines[i].as_str()) {
                Err(e) => {
                    return Err(e);
                },
                Ok(rec) => {
                    let ghost pre = out.deep_view();
                    out.push(rec);
                    proof {
                        assert(out.deep_view() =~= pre.push(rec@));
                        assert forall|rest: Seq<RecordView>|
                            true implies pre + (seq![rec@] + rest) =~= pre.push(rec@) + rest by {}
                    }
                },
            }
        }
        i += 1;
    }
    proof {
        assert(lsv.skip(lines.len() as int) =~= Seq::<Seq<char>>::empty());
        assert(out.deep_view() + Seq::<RecordView>::empty() =~= out.deep_view());
    }
    Ok(out)
}

/// Does any loaded record bear this name, by exact name equality.
pub fn contains_name(records: &Vec<TaskRecord>, name: &str) -> (res: bool)
    ensures
        res == has_name(records.deep_view(), name@),
{
    let mut i: usize = 0;
    while i < records.len()
        invariant
            0 <= i <= records.len(),
            forall|j: int| 0 <= j < i ==> records.deep_view()[j].name != name@,
        decreases records.len() - i,
    {
        if str_eq(records[i].name().as_str(), name) {
            assert(records.deep_view()[i as int].name == name@);
            return true;
        }
        i += 1;
    }
    false
}

/// One pass over the lines: every non-empty line must decode; the
/// lines whose record bears the name are dropped, the first such
/// record is handed back, everything else is kept in order.
pub open spec fn scan_lines(ls: Seq<Seq<char>>, name: Seq<char>) -> Result<
    (Seq<Seq<char>>, Option<RecordView>),
    ChecklistError,
>
    decreases ls.len(),
{
    if ls.len() == 0 {
        Ok((Seq::<Seq<char>>::empty(), None))
    } else if ls[0].len() == 0 {
        scan_lines(ls.drop_first(), name)
    } else {
        match decode_line_spec(ls[0]) {
            Err(e) => Err(e),
            Ok(r) => match scan_lines(ls.drop_first(), name) {
                Err(e) => Err(e),
                Ok(p) => if r.name == name {
                    Ok((p.0, Some(r)))
                } else {
                    Ok((seq![ls[0]] + p.0, p.1))
                },
            },
        }
    }
}

/// The scan fails exactly where the load fails, and finds a record
/// exactly where the load holds one with the name.
pub proof fn lemma_scan_load(ls: Seq<Seq<char>>, name: Seq<char>)
    ensures
        load_rec(ls) matches Err(e) ==> scan_lines(ls, name) == Err::<
            (Seq<Seq<char>>, Option<RecordView>),
            ChecklistError,
        >(e),
        load_rec(ls) matches Ok(rs) ==> scan_lines(ls, name) matches Ok(p) && ((
        p.1 is Some) <==> has_name(rs, name)) && (p.1 matches Some(r) ==> r.name == name),
    decreases ls.len(),
{
    if ls.len() == 0 {
    } else if ls[0].len() == 0 {
        lemma_scan_load(ls.drop_first(), name);
    } else {
        lemma_scan_load(ls.drop_first(), name);
        match decode_line_spec(ls[0]) {
            Err(_) => {},
            Ok(r) => {
                match load_rec(ls.drop_first()) {
                    Err(_) => {},
                    Ok(rest) => {
                        let rs = seq![r] + rest;
                        assert(rs[0] == r);
                        assert forall|i: int| 0 <= i < rs.len() && i > 0 implies rs[i] == rest[i
                            - 1] by {}
                        if r.name == name {
                            assert(has_name(rs, name));
                        } else {
                            if has_name(rest, name) {
                                let i = choose|i: int|
                                    0 <= i < rest.len() && rest[i].name == name;
                                assert(rs[i + 1].name == name);
                            }
                            if has_name(rs, name) {
                                let i = choose|i: int| 0 <= i < rs.len() && rs[i].name == name;
                                assert(i > 0);
                                assert(rest[i - 1].name == name);
                            }
                        }
                    },
                }
            },
        }
    }
}

/// What the scan keeps: non-empty newline-free lines that decode, and
/// none of them bears the name.
pub proof fn lemma_scan_kept(ls: Seq<Seq<char>>, name: Seq<char>)
    requires
        forall|k: int, j: int| 0 <= k < ls.len() && 0 <= j < ls[k].len() ==> ls[k][j] != '\n',
    ensures
        scan_lines(ls, name) matches Ok(p) ==> forall|k: int|
            0 <= k < p.0.len() ==> (#[trigger] p.0[k]).len() > 0 && (decode_line_spec(p.0[k])
                matches Ok(r2) && r2.name != name) && (forall|j: int|
                0 <= j < p.0[k].len() ==> p.0[k][j] != '\n'),
    decreases ls.len(),
{
    if ls.len() == 0 {
    } else {
        assert forall|k: int, j: int|
            0 <= k < ls.drop_first().len() && 0 <= j
                < ls.drop_first()[k].len() implies ls.drop_first()[k][j] != '\n' by {
            assert(ls.drop_first()[k] == ls[k + 1]);
        }
        lemma_scan_kept(ls.drop_first(), name);
        if ls[0].len() == 0 {
        } else {
            match decode_line_spec(ls[0]) {
                Err(_) => {},
                Ok(r) => {
                    match scan_lines(ls.drop_first(), name) {
                        Err(_) => {},
                        Ok(p) => {
                            if r.name == name {
                            } else {
                                let q = seq![ls[0]] + p.0;
                                assert forall|k: int|
                                    0 <= k < q.len() implies (#[trigger] q[k]).len() > 0 && (
                                decode_line_spec(q[k]) matches Ok(r2) && r2.name != name) && (
                                forall|j: int| 0 <= j < q[k].len() ==> q[k][j] != '\n') by {
                                    if k == 0 {
                                        assert(q[0] == ls[0]);
                                    } else {
                                        assert(q[k] == p.0[k - 1]);
                                    }
                                }
                            }
                        },
                    }
                },
            }
        }
    }
}

/// Reading non-empty decodable lines joined by newlines gives exactly
/// their records.
pub proof fn lemma_load_join(ls: Seq<Seq<char>>)
    requires
        forall|k: int| 0 <= k < ls.len() ==> (#[trigger] ls[k]).len() > 0,
        forall|k: int, j: int| 0 <= k < ls.len() && 0 <= j < ls[k].len() ==> ls[k][j] != '\n',
    ensures
        load_spec(crate::text::join_char(ls, '\n')) == load_rec(ls),
{
    if ls.len() == 0 {
        assert(crate::text::join_char(ls, '\n') =~= Seq::<char>::empty());
        let sp = split_char(Seq::<char>::empty(), '\n');
        assert(sp =~~= seq![Seq::<char>::empty()]);
        assert(sp[0].len() == 0);
        assert(sp.drop_first() =~= Seq::<Seq<char>>::empty());
        assert(load_rec(sp) == load_rec(Seq::<Seq<char>>::empty()));
    } else {
        crate::text::lemma_join_split(ls, '\n');
    }
}

/// Records read from lines that never bear the name never bear it
/// either.
pub proof fn lemma_load_rec_no_name(ls: Seq<Seq<char>>, name: Seq<char>)
    requires
        forall|k: int| 0 <= k < ls.len() ==> (#[trigger] ls[k]).len() > 0 && (decode_line_spec(
            ls[k],
        ) matches Ok(r2) && r2.name != name),
    ensures
        load_rec(ls) matches Ok(rs) && !has_name(rs, name),
    decreases ls.len(),
{
    if ls.len() == 0 {
    } else {
        assert(ls[0].len() > 0 && decode_line_spec(ls[0]) is Ok);
        assert forall|k: int|
            0 <= k < ls.drop_first().len() implies (#[trigger] ls.drop_first()[k]).len() > 0 && (
        decode_line_spec(ls.drop_first()[k]) matches Ok(r2) && r2.name != name) by {
            assert(ls.drop_first()[k] == ls[k + 1]);
        }
        lemma_load_rec_no_name(ls.drop_first(), name);
        let r = decode_line_spec(ls[0])->Ok_0;
        let rest = load_rec(ls.drop_first())->Ok_0;
        let rs = seq![r] + rest;
        assert(load_rec(ls) == Ok::<Seq<RecordView>, ChecklistError>(rs));
        if has_name(rs, name) {
            let i = choose|i: int| 0 <= i < rs.len() && rs[i].name == name;
            if i == 0 {
                assert(rs[0] == r);
            } else {
                assert(rs[i] == rest[i - 1]);
            }
            assert(false);
        }
    }
}

/// What the scan finds: a record bearing the name, well formed when
/// the lines carry no newline.
pub proof fn lemma_scan_found(ls: Seq<Seq<char>>, name: Seq<char>)
    requires
        forall|k: int, j: int| 0 <= k < ls.len() && 0 <= j < ls[k].len() ==> ls[k][j] != '\n',
    ensures
        scan_lines(ls, name) matches Ok(p) ==> (p.1 matches Some(r) ==> r.name == name
            && wf_record(r)),
    decreases ls.len(),
{
    if ls.len() == 0 {
    } else {
        assert forall|k: int, j: int|
            0 <= k < ls.drop_first().len() && 0 <= j
                < ls.drop_first()[k].len() implies ls.drop_first()[k][j] != '\n' by {
            assert(ls.drop_first()[k] == ls[k + 1]);
        }
        lemma_scan_found(ls.drop_first(), name);
        if ls[0].len() == 0 {
        } else {
            match decode_line_spec(ls[0]) {
                Err(_) => {},
                Ok(r) => {
                    if r.name == name {
                        lemma_split_char_parts(ls[0], ',');
                        let parts = split_char(ls[0], ',');
                        if parts.len() == 3 {
                            assert(r.name == parts[0]);
                            assert forall|j: int| 0 <= j < r.name.len() implies r.name[j] != ','
                                && r.name[j] != '\n' by {
                                assert(ls[0].contains(parts[0][j]));
                            }
                            crate::date::lemma_parse_date_valid(parts[1]);
                        }
                    }
                },
            }
        }
    }
}

/// Runs the shared scan over split lines.
pub fn scan(lines: &Vec<String>, name: &str) -> (res: Result<
    (Vec<String>, Option<TaskRecord>),
    ChecklistError,
>)
    ensures
        match scan_lines(lines.deep_view(), name@) {
            Ok(p) => res matches Ok(q) && q.0.deep_view() == p.0 && (match p.1 {
                Some(r) => q.1 matches Some(rec) && rec@ == r,
                None => q.1 is None,
            }),
            Err(e) => res matches Err(e2) && e2 == e,
        },
        (forall|k: int, j: int|
            0 <= k < lines.deep_view().len() && 0 <= j < lines.deep_view()[k].len()
                ==> lines.deep_view()[k][j] != '\n') ==> (res matches Ok(q) ==> (q.1 matches Some(
            rec,
        ) ==> wf_record(rec@))),
{
    let ghost lsv = lines.deep_view();
    let ghost hyp = forall|k: int, j: int|
        0 <= k < lsv.len() && 0 <= j < lsv[k].len() ==> lsv[k][j] != '\n';
    let mut kept: Vec<String> = Vec::new();
    let mut found: Option<TaskRecord> = None;
    let mut i: usize = 0;
    proof {
        assert(lsv.skip(0) =~= lsv);
    }
    while i < lines.len()
        invariant
            0 <= i <= lines.len(),
            lsv == lines.deep_view(),
            hyp == (forall|k: int, j: int|
                0 <= k < lsv.len() && 0 <= j < lsv[k].len() ==> lsv[k][j] != '\n'),
            scan_lines(lsv, name@) == match scan_lines(lsv.skip(i as int), name@) {
                Err(e) => Err::<(Seq<Seq<char>>, Option<RecordView>), ChecklistError>(e),
                Ok(p) => Ok::<(Seq<Seq<char>>, Option<RecordView>), ChecklistError>(
                    (
                        kept.deep_view() + p.0,
                        match found {
                            Some(rec) => Some(rec@),
                            None => p.1,
                        },
                    ),
                ),
            },
            hyp ==> (found matches Some(rec) ==> wf_record(rec@)),
        decreases lines.len() - i,
    {
        proof {
            assert(lsv.skip(i as int)[0] == lsv[i as int]);
            assert(lsv.skip(i as int).drop_first() =~= lsv.skip(i as int + 1));
        }
        if !lines[i].as_str().is_empty() {
            match TaskRecord::decode(lines[i].as_str()) {
                Err(e) => {
                    return Err(e);
                },
                Ok(rec) => {
                    if str_eq(rec.name().as_str(), name) {
                        proof {
                            if hyp {
                                assert(lsv[i as int].len() > 0);
                            }
                        }
                        if found.is_none() {
                            found = Some(rec);
                        }
                    } else {
                        let ghost pre = kept.deep_view();
                        kept.push(lines[i].clone());
                        proof {
                            assert(kept.deep_view() =~= pre.push(lsv[i as int]));
                            assert forall|rest: Seq<Seq<char>>|
                                true implies pre + (seq![lsv[i as int]] + rest) =~= pre.push(
                                lsv[i as int],
                            ) + rest by {}
                        }
                    }
                },
            }
        }
        i += 1;
    }
    proof {
        assert(lsv.skip(lines.len() as int) =~= Seq::<Seq<char>>::empty());
        assert(kept.deep_view() + Seq::<Seq<char>>::empty() =~= kept.deep_view());
    }
    Ok((kept, found))
}

} // verus!
