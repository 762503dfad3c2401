//! The five checklist commands, each a pure function from the current
//! file content (plus arguments, and for the time-dependent commands a
//! supplied current date) to the new file content or the rendered
//! table. Writing the content back to disk is the caller's business.

use crate::date::Date;
use crate::date::add_days;
use crate::date::add_days_spec;
use crate::date::parse_date;
use crate::date::parse_date_spec;
use crate::date::valid_date;
use crate::errors::ChecklistError;
use crate::record::RecordView;
use crate::record::TaskRecord;
use crate::record::clean_name;
use crate::record::encode_line;
use crate::record::lemma_encode_line_clean;
use crate::record::lemma_record_roundtrip;
use crate::record::name_ok;
use crate::record::wf_record;
use crate::store::contains_name;
use crate::store::has_name;
use crate::store::lemma_load_prepend;
use crate::store::lemma_scan_load;
use crate::store::load;
use crate::store::load_rec;
use crate::store::load_spec;
use crate::store::scan;
use crate::store::scan_lines;
use crate::text::join_char;
use crate::text::join_newline;
use crate::text::lemma_split_char_parts;
use crate::text::parse_u32;
use crate::text::parse_u32_spec;
use crate::text::split;
use crate::text::split_char;
use crate::text::str_eq;
use vstd::prelude::*;

verus! {

/// The command surface: five named operations.
#[derive(Clone, Copy, PartialEq, Eq, Structural, Debug)]
pub enum Command {
    Add,
    Remove,
    List,
    Check,
    Uncheck,
}

/// Which operation a command word names.
pub open spec fn parse_command_spec(s: Seq<char>) -> Result<Command, ChecklistError> {
    if s == "add"@ {
        Ok(Command::Add)
    } else if s == "remove"@ {
        Ok(Command::Remove)
    } else if s == "list"@ {
        Ok(Command::List)
    } else if s == "check"@ {
        Ok(Command::Check)
    } else if s == "uncheck"@ {
        Ok(Command::Uncheck)
    } else {
        Err(ChecklistError::InvalidCommand)
    }
}

/// Maps a command word to its operation; any other word is rejected.
pub fn parse_command(command_str: &str) -> (res: Result<Command, ChecklistError>)
    ensures
        res == parse_command_spec(command_str@),
{
    if str_eq(command_str, "add") {
        Ok(Command::Add)
    } else if str_eq(command_str, "remove") {
        Ok(Command::Remove)
    } else if str_eq(command_str, "list") {
        Ok(Command::List)
    } else if str_eq(command_str, "check") {
        Ok(Command::Check)
    } else if str_eq(command_str, "uncheck") {
        Ok(Command::Uncheck)
    } else {
        Err(ChecklistError::InvalidCommand)
    }
}

/// What `add` does: with name and due date given (a third argument, the
/// interval, may be the word `once` for a one-off task and defaults to
/// it), reject a duplicate name, validate the fields, and prepend the
/// new record's line to the content, which is otherwise kept
/// byte-for-byte.
pub open spec fn add_spec(content: Seq<char>, args: Seq<Seq<char>>) -> Result<
    Seq<char>,
    ChecklistError,
> {
    if args.len() < 2 {
        Err(ChecklistError::MissingArguments)
    } else {
        match load_spec(content) {
            Err(e) => Err(e),
            Ok(rs) => if has_name(rs, args[0]) {
                Err(ChecklistError::DuplicateTask)
            } else if !clean_name(args[0]) {
                Err(ChecklistError::MalformedRecord)
            } else {
                match parse_date_spec(args[1]) {
                    None => Err(ChecklistError::InvalidDate),
                    Some(due) => {
                        let ivs = if args.len() < 3 {
                            "0"@
                        } else {
                            args[2]
                        };
                        let iv = if ivs == "once"@ {
                            Some(0u32)
                        } else {
                            parse_u32_spec(ivs)
                        };
                        match iv {
                            None => Err(ChecklistError::InvalidInterval),
                            Some(interval) => Ok(
                                encode_line(RecordView { name: args[0], due, interval })
                                    + seq!['\n'] + content,
                            ),
                        }
                    },
                }
            },
        }
    }
}

/// Inserts a new task at the front of the checklist.
pub fn add(content: &str, args: &Vec<String>) -> (res: Result<String, ChecklistError>)
    ensures
        match add_spec(content@, args.deep_view()) {
            Ok(c) => res matches Ok(s) && s@ == c,
            Err(e) => res matches Err(e2) && e2 == e,
        },
{
    if args.len() < 2 {
        return Err(ChecklistError::MissingArguments);
    }
    let records = match load(content) {
        Ok(v) => v,
        Err(e) => {
            return Err(e);
        },
    };
    if contains_name(&records, args[0].as_str()) {
        return Err(ChecklistError::DuplicateTask);
    }
    if !name_ok(args[0].as_str()) {
        return Err(ChecklistError::MalformedRecord);
    }
    let due = match parse_date(args[1].as_str()) {
        Some(d) => d,
        None => {
            return Err(ChecklistError::InvalidDate);
        },
    };
    let interval: u32 = if args.len() < 3 {
        proof {
            reveal_strlit("0");
            reveal_strlit("once");
            assert(("0")@ =~= seq!['0']);
            assert(seq!['0'].drop_last() =~= Seq::<char>::empty());
            assert(seq!['0'].last() == '0');
            assert(crate::text::dec_value(Seq::<char>::empty()) == 0);
            assert(crate::text::dec_value(seq!['0']) == 0);
            assert(parse_u32_spec(("0")@) == Some(0u32));
        }
        0
    } else if str_eq(args[2].as_str(), "once") {
        0
    } else {
        match parse_u32(args[2].as_str()) {
            Some(v) => v,
            None => {
                return Err(ChecklistError::InvalidInterval);
            },
        }
    };
    let rec = match TaskRecord::new(args[0].clone(), due, interval) {
        Ok(r) => r,
        Err(_) => {
            proof {
                assert(false);
            }
            return Err(ChecklistError::MalformedRecord);
        },
    };
    let mut out = rec.encode();
    out.append("\n");
    out.append(content);
    proof {
        reveal_strlit("\n");
        assert(("\n")@ =~= seq!['\n']);
        assert(out@ =~= encode_line(rec@) + seq!['\n'] + content@);
    }
    Ok(out)
}

/// What `remove` does: drop every line whose record bears the name,
/// keep the rest in order joined by newlines, and fail when nothing
/// bore the name. On failure the content is not replaced.
pub open spec fn remove_spec(content: Seq<char>, args: Seq<Seq<char>>) -> Result<
    Seq<char>,
    ChecklistError,
> {
    if args.len() < 1 {
        Err(ChecklistError::MissingArguments)
    } else {
        match scan_lines(split_char(content, '\n'), args[0]) {
            Err(e) => Err(e),
            Ok(p) => if p.1 is None {
                Err(ChecklistError::TaskNotFound)
            } else {
                Ok(join_char(p.0, '\n'))
            },
        }
    }
}

/// Deletes a task by name.
pub fn remove(content: &str, args: &Vec<String>) -> (res: Result<String, ChecklistError>)
    ensures
        match remove_spec(content@, args.deep_view()) {
            Ok(c) => res matches Ok(s) && s@ == c,
            Err(e) => res matches Err(e2) && e2 == e,
        },
{
    if args.len() < 1 {
        return Err(ChecklistError::MissingArguments);
    }
    let lines = split(content, '\n');
    match scan(&lines, args[0].as_str()) {
        Err(e) => Err(e),
        Ok((kept, found)) => match found {
            None => Err(ChecklistError::TaskNotFound),
            Some(_) => Ok(join_newline(&kept)),
        },
    }
}

/// What `check` does: complete the named task. The task's lines leave
/// the checklist; a recurring task comes back at the front, due the
/// given current date plus its interval.
pub open spec fn check_spec(content: Seq<char>, args: Seq<Seq<char>>, today: Date) -> Result<
    Seq<char>,
    ChecklistError,
> {
    if args.len() < 1 {
        Err(ChecklistError::MissingArguments)
    } else {
        match scan_lines(split_char(content, '\n'), args[0]) {
            Err(e) => Err(e),
            Ok(p) => match p.1 {
                None => Err(ChecklistError::TaskNotFound),
                Some(r) => if r.interval == 0 {
                    Ok(join_char(p.0, '\n'))
                } else {
                    match add_days_spec(today, r.interval as nat) {
                        None => Err(ChecklistError::DateOverflow),
                        Some(nd) => Ok(
                            encode_line(RecordView { name: r.name, due: nd, interval: r.interval })
                                + seq!['\n'] + join_char(p.0, '\n'),
                        ),
                    }
                },
            },
        }
    }
}

/// Completes a task: removes it, and reschedules it from the given
/// current date when it recurs.
pub fn check(content: &str, args: &Vec<String>, today: Date) -> (res: Result<
    String,
    ChecklistError,
>)
    requires
        valid_date(today),
    ensures
        match check_spec(content@, args.deep_view(), today) {
            Ok(c) => res matches Ok(s) && s@ == c,
            Err(e) => res matches Err(e2) && e2 == e,
        },
{
    if args.len() < 1 {
        return Err(ChecklistError::MissingArguments);
    }
    proof {
        lemma_split_char_parts(content@, '\n');
    }
    let lines = split(content, '\n');
    match scan(&lines, args[0].as_str()) {
        Err(e) => Err(e),
        Ok((kept, found)) => match found {
            None => Err(ChecklistError::TaskNotFound),
            Some(rec) => {
                if rec.interval() == 0 {
                    Ok(join_newline(&kept))
                } else {
                    let nd = match add_days(&today, rec.interval()) {
                        Some(d) => d,
                        None => {
                            return Err(ChecklistError::DateOverflow);
                        },
                    };
                    let newrec = match TaskRecord::new(rec.name().clone(), nd, rec.interval()) {
                        Ok(r) => r,
                        Err(_) => {
                            proof {
                                assert(false);
                            }
                            return Err(ChecklistError::DateOverflow);
                        },
                    };
                    let mut out = newrec.encode();
                    out.append("\n");
                    let rest = join_newline(&kept);
                    out.append(rest.as_str());
                    proof {
                        reveal_strlit("\n");
                        assert(("\n")@ =~= seq!['\n']);
                        assert(out@ =~= encode_line(newrec@) + seq!['\n'] + join_char(
                            kept.deep_view(),
                            '\n',
                        ));
                    }
                    Ok(out)
                }
            },
        },
    }
}

/// What `uncheck` does today: nothing beyond argument validation. The
/// command is accepted as a stable extension point.
pub fn uncheck(args: &Vec<String>) -> (res: Result<(), ChecklistError>)
    ensures
        res == if args.len() < 1 {
            Err::<(), ChecklistError>(ChecklistError::MissingArguments)
        } else {
            Ok::<(), ChecklistError>(())
        },
{
    if args.len() < 1 {
        Err(ChecklistError::MissingArguments)
    } else {
        Ok(())
    }
}

/// Uniqueness: once `add` has succeeded for a name, a second `add`
/// with that name fails with the duplicate error, whatever its other
/// arguments.
pub proof fn lemma_add_then_duplicate(
    content: Seq<char>,
    args1: Seq<Seq<char>>,
    args2: Seq<Seq<char>>,
)
    requires
        args2.len() >= 2,
        args2[0] == args1[0],
        add_spec(content, args1) is Ok,
    ensures
        add_spec(add_spec(content, args1)->Ok_0, args2) == Err::<Seq<char>, ChecklistError>(
            ChecklistError::DuplicateTask,
        ),
{
    let rs = load_spec(content)->Ok_0;
    let due = parse_date_spec(args1[1])->Some_0;
    let ivs = if args1.len() < 3 {
        "0"@
    } else {
        args1[2]
    };
    let interval = if ivs == "once"@ {
        0u32
    } else {
        parse_u32_spec(ivs)->Some_0
    };
    let r = RecordView { name: args1[0], due, interval };
    crate::date::lemma_parse_date_valid(args1[1]);
    assert(wf_record(r));
    lemma_encode_line_clean(r);
    lemma_record_roundtrip(r);
    lemma_load_prepend(encode_line(r), content);
    let c2 = add_spec(content, args1)->Ok_0;
    assert(c2 == encode_line(r) + seq!['\n'] + content);
    assert(load_spec(c2) == Ok::<Seq<RecordView>, ChecklistError>(seq![r] + rs));
    assert((seq![r] + rs)[0] == r);
    assert(has_name(seq![r] + rs, args2[0]));
}

/// One-off completion: when `check` succeeds on a task whose interval
/// is zero, the new content reads back without that task's name.
pub proof fn lemma_check_one_off(content: Seq<char>, args: Seq<Seq<char>>, today: Date)
    requires
        args.len() >= 1,
        check_spec(content, args, today) is Ok,
        (scan_lines(split_char(content, '\n'), args[0])->Ok_0).1->Some_0.interval == 0,
    ensures
        load_spec(check_spec(content, args, today)->Ok_0) matches Ok(rs2) && !has_name(
            rs2,
            args[0],
        ),
{
    let ls = split_char(content, '\n');
    lemma_split_char_parts(content, '\n');
    let p = scan_lines(ls, args[0])->Ok_0;
    crate::store::lemma_scan_kept(ls, args[0]);
    assert forall|k: int, j: int| 0 <= k < p.0.len() && 0 <= j < p.0[k].len() implies p.0[k][j]
        != '\n' by {
        assert(p.0[k].len() > 0);
    }
    crate::store::lemma_load_join(p.0);
    crate::store::lemma_load_rec_no_name(p.0, args[0]);
}

/// Recurrence: when `check` succeeds on a recurring task, the new
/// content reads back as the rescheduled record -- same name, same
/// interval, due the given current date plus the interval -- followed
/// by exactly the records that did not bear the name.
pub proof fn lemma_check_recurring(content: Seq<char>, args: Seq<Seq<char>>, today: Date)
    requires
        args.len() >= 1,
        valid_date(today),
        check_spec(content, args, today) is Ok,
        (scan_lines(split_char(content, '\n'), args[0])->Ok_0).1->Some_0.interval != 0,
    ensures
        ({
            let p = scan_lines(split_char(content, '\n'), args[0])->Ok_0;
            let r = p.1->Some_0;
            let nd = add_days_spec(today, r.interval as nat)->Some_0;
            &&& load_spec(check_spec(content, args, today)->Ok_0) matches Ok(rs2) && rs2
                == seq![RecordView { name: args[0], due: nd, interval: r.interval }] + (load_rec(
                p.0,
            )->Ok_0) && !has_name(load_rec(p.0)->Ok_0, args[0])
        }),
{
    let ls = split_char(content, '\n');
    lemma_split_char_parts(content, '\n');
    let p = scan_lines(ls, args[0])->Ok_0;
    let r = p.1->Some_0;
    crate::store::lemma_scan_found(ls, args[0]);
    assert(r.name == args[0] && wf_record(r));
    crate::store::lemma_scan_kept(ls, args[0]);
    assert forall|k: int, j: int| 0 <= k < p.0.len() && 0 <= j < p.0[k].len() implies p.0[k][j]
        != '\n' by {
        assert(p.0[k].len() > 0);
    }
    crate::store::lemma_load_join(p.0);
    crate::store::lemma_load_rec_no_name(p.0, args[0]);
    let nd = add_days_spec(today, r.interval as nat)->Some_0;
    crate::date::lemma_add_days_valid(today, r.interval as nat);
    let newr = RecordView { name: args[0], due: nd, interval: r.interval };
    assert(wf_record(newr));
    lemma_encode_line_clean(newr);
    lemma_record_roundtrip(newr);
    lemma_load_prepend(encode_line(newr), join_char(p.0, '\n'));
    assert(load_spec(check_spec(content, args, today)->Ok_0) == Ok::<
        Seq<RecordView>,
        ChecklistError,
    >(seq![newr] + (load_rec(p.0)->Ok_0)));
}

/// Removal guard: on a checklist that reads back without the name --
/// the empty checklist included -- `remove` fails with the not-found
/// error; no new content is produced, so the file stays as it was.
pub proof fn lemma_remove_absent(content: Seq<char>, args: Seq<Seq<char>>)
    requires
        args.len() >= 1,
        load_spec(content) is Ok,
        !has_name(load_spec(content)->Ok_0, args[0]),
    ensures
        remove_spec(content, args) == Err::<Seq<char>, ChecklistError>(
            ChecklistError::TaskNotFound,
        ),
{
    lemma_scan_load(split_char(content, '\n'), args[0]);
}

} // verus!
