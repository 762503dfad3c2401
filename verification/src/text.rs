//! Character and string groundwork: decimal digits, decimal numbers,
//! splitting and joining on a separator character, padding, and plain
//! string comparison. Everything a record codec and a table formatter
//! need to speak about text.

use vstd::prelude::*;
use vstd::string::StrSliceExecFns;
use vstd::string::StringExecFns;

verus! {

/// The value of a decimal digit character; 10 for any other character.
pub open spec fn digit_val(c: char) -> nat {
    if c == '0' {
        0
    } else if c == '1' {
        1
    } else if c == '2' {
        2
    } else if c == '3' {
        3
    } else if c == '4' {
        4
    } else if c == '5' {
        5
    } else if c == '6' {
        6
    } else if c == '7' {
        7
    } else if c == '8' {
        8
    } else if c == '9' {
        9
    } else {
        10
    }
}

pub open spec fn is_digit(c: char) -> bool {
    digit_val(c) < 10
}

/// The character for a decimal digit value below ten.
pub open spec fn digit_char(n: nat) -> char {
    if n == 0 {
        '0'
    } else if n == 1 {
        '1'
    } else if n == 2 {
        '2'
    } else if n == 3 {
        '3'
    } else if n == 4 {
        '4'
    } else if n == 5 {
        '5'
    } else if n == 6 {
        '6'
    } else if n == 7 {
        '7'
    } else if n == 8 {
        '8'
    } else {
        '9'
    }
}

pub proof fn lemma_digit_char(n: nat)
    requires
        n < 10,
    ensures
        digit_val(digit_char(n)) == n,
        is_digit(digit_char(n)),
        digit_char(n) != ',',
        digit_char(n) != '\n',
        digit_char(n) != '-',
{
}

pub open spec fn all_digits(s: Seq<char>) -> bool {
    forall|i: int| 0 <= i < s.len() ==> is_digit(s[i])
}

/// The numeric value of a string of decimal digits.
pub open spec fn dec_value(s: Seq<char>) -> nat
    decreases s.len(),
{
    if s.len() == 0 {
        0
    } else {
        dec_value(s.drop_last()) * 10 + digit_val(s.last())
    }
}

/// The canonical decimal representation of a number: no sign, no
/// leading zeros (except for the single digit of zero itself).
pub open spec fn dec_repr(n: nat) -> Seq<char>
    decreases n,
{
    if n < 10 {
        seq![digit_char(n)]
    } else {
        dec_repr(n / 10).push(digit_char(n % 10))
    }
}

pub proof fn lemma_dec_repr(n: nat)
    ensures
        dec_repr(n).len() >= 1,
        all_digits(dec_repr(n)),
        dec_value(dec_repr(n)) == n,
    decreases n,
{
    if n < 10 {
        lemma_digit_char(n);
        assert(dec_repr(n).drop_last() =~= Seq::<char>::empty());
        assert(dec_repr(n).last() == digit_char(n));
        assert(dec_value(dec_repr(n)) == dec_value(Seq::<char>::empty()) * 10 + digit_val(
            digit_char(n),
        ));
        assert(dec_value(dec_repr(n)) == n);
    } else {
        lemma_dec_repr(n / 10);
        lemma_digit_char(n % 10);
        vstd::arithmetic::div_mod::lemma_fundamental_div_mod(n as int, 10);
        assert((n / 10) * 10 + (n % 10) == n);
        assert(dec_repr(n).drop_last() =~= dec_repr(n / 10));
        assert(dec_value(dec_repr(n)) == dec_value(dec_repr(n / 10)) * 10 + (n % 10));
        assert(dec_value(dec_repr(n)) == n);
    }
}

pub open spec fn pow10(k: nat) -> nat
    decreases k,
{
    if k == 0 {
        1
    } else {
        10 * pow10((k - 1) as nat)
    }
}

/// A number below the `k`-th power of ten has at most `k` digits.
pub proof fn lemma_dec_repr_len(n: nat, k: nat)
    requires
        k >= 1,
        n < pow10(k),
    ensures
        dec_repr(n).len() <= k,
    decreases n,
{
    if n < 10 {
    } else {
        reveal_with_fuel(pow10, 2);
        assert(pow10(1) == 10);
        assert(k != 1);
        assert(n / 10 < pow10((k - 1) as nat)) by (nonlinear_arith)
            requires
                n < pow10(k),
                pow10(k) == 10 * pow10((k - 1) as nat),
                n >= 10,
        ;
        lemma_dec_repr_len(n / 10, (k - 1) as nat);
    }
}

/// What parsing a decimal field yields: the value, when the field is a
/// nonempty string of digits whose value fits the interval type.
pub open spec fn parse_u32_spec(s: Seq<char>) -> Option<u32> {
    if s.len() > 0 && all_digits(s) && dec_value(s) <= u32::MAX {
        Some(dec_value(s) as u32)
    } else {
        None
    }
}

/// The digit value of a character, executable form.
pub fn char_digit(c: char) -> (d: u32)
    ensures
        d == digit_val(c),
{
    match c {
        '0' => 0,
        '1' => 1,
        '2' => 2,
        '3' => 3,
        '4' => 4,
        '5' => 5,
        '6' => 6,
        '7' => 7,
        '8' => 8,
        '9' => 9,
        _ => 10,
    }
}

/// Parses a nonempty all-digit string into its value, rejecting
/// anything else, including values past `u32::MAX`.
pub fn parse_u32(s: &str) -> (res: Option<u32>)
    ensures
        res == parse_u32_spec(s@),
{
    let n = s.unicode_len();
    if n == 0 {
        return None;
    }
    let mut i: usize = 0;
    let mut acc: u64 = 0;
    let mut too_big: bool = false;
    while i < n
        invariant
            0 <= i <= n,
            n == s@.len(),
            all_digits(s@.take(i as int)),
            !too_big ==> acc == dec_value(s@.take(i as int)) && acc <= u32::MAX as u64,
            too_big ==> dec_value(s@.take(i as int)) > u32::MAX,
        decreases n - i,
    {
        let c = s.get_char(i);
        let d = char_digit(c);
        if d >= 10 {
            assert(!is_digit(s@[i as int]));
            return None;
        }
        proof {
            assert(s@.take(i as int + 1).drop_last() =~= s@.take(i as int));
            assert(s@.take(i as int + 1).last() == s@[i as int]);
        }
        if !too_big {
            let next: u64 = acc * 10 + (d as u64);
            if next > u32::MAX as u64 {
                too_big = true;
            } else {
                acc = next;
            }
        }
        i += 1;
    }
    proof {
        assert(s@.take(n as int) =~= s@);
    }
    if too_big {
        None
    } else {
        Some(acc as u32)
    }
}

/// Appends one decimal digit character to a string.
pub fn append_digit(out: &mut String, d: u32)
    requires
        d < 10,
    ensures
        final(out)@ == old(out)@ + seq![digit_char(d as nat)],
{
    if d == 0 {
        out.append("0");
        proof {
            reveal_strlit("0");
            assert(("0")@ =~= seq![digit_char(d as nat)]);
        }
    } else if d == 1 {
        out.append("1");
        proof {
            reveal_strlit("1");
            assert(("1")@ =~= seq![digit_char(d as nat)]);
        }
    } else if d == 2 {
        out.append("2");
        proof {
            reveal_strlit("2");
            assert(("2")@ =~= seq![digit_char(d as nat)]);
        }
    } else if d == 3 {
        out.append("3");
        proof {
            reveal_strlit("3");
            assert(("3")@ =~= seq![digit_char(d as nat)]);
        }
    } else if d == 4 {
        out.append("4");
        proof {
            reveal_strlit("4");
            assert(("4")@ =~= seq![digit_char(d as nat)]);
        }
    } else if d == 5 {
        out.append("5");
        proof {
            reveal_strlit("5");
            assert(("5")@ =~= seq![digit_char(d as nat)]);
        }
    } else if d == 6 {
        out.append("6");
        proof {
            reveal_strlit("6");
            assert(("6")@ =~= seq![digit_char(d as nat)]);
        }
    } else if d == 7 {
        out.append("7");
        proof {
            reveal_strlit("7");
            assert(("7")@ =~= seq![digit_char(d as nat)]);
        }
    } else if d == 8 {
        out.append("8");
        proof {
            reveal_strlit("8");
            assert(("8")@ =~= seq![digit_char(d as nat)]);
        }
    } else {
        out.append("9");
        proof {
            reveal_strlit("9");
            assert(("9")@ =~= seq![digit_char(d as nat)]);
        }
    }
}

/// Appends the canonical decimal representation of a number.
pub fn append_u32(out: &mut String, n: u32)
    ensures
        final(out)@ == old(out)@ + dec_repr(n as nat),
    decreases n,
{
    if n < 10 {
        append_digit(out, n);
    } else {
        append_u32(out, n / 10);
        append_digit(out, n % 10);
        proof {
            assert((n / 10) as nat == (n as nat) / 10);
            assert((n % 10) as nat == (n as nat) % 10);
            assert(old(out)@ + dec_repr((n as nat) / 10) + seq![digit_char((n as nat) % 10)] =~= old(
                out,
            )@ + dec_repr(n as nat));
        }
    }
}

/// Splitting a string on a separator character, as `name,date,interval`
/// lines and newline-delimited files are taken apart. Splitting the
/// empty string yields one empty part, matching the convention that a
/// string with `k` separators has `k + 1` parts.
pub open spec fn split_char(s: Seq<char>, sep: char) -> Seq<Seq<char>>
    decreases s.len(),
{
    if s.len() == 0 {
        seq![Seq::<char>::empty()]
    } else if s[0] == sep {
        seq![Seq::<char>::empty()] + split_char(s.drop_first(), sep)
    } else {
        let rest = split_char(s.drop_first(), sep);
        seq![seq![s[0]] + rest[0]] + rest.drop_first()
    }
}

pub proof fn lemma_split_char_parts(s: Seq<char>, sep: char)
    ensures
        split_char(s, sep).len() >= 1,
        forall|k: int, j: int|
            0 <= k < split_char(s, sep).len() && 0 <= j < split_char(s, sep)[k].len() ==> split_char(
                s,
                sep,
            )[k][j] != sep,
        forall|k: int, j: int|
            0 <= k < split_char(s, sep).len() && 0 <= j < split_char(s, sep)[k].len() ==> s.contains(
                split_char(s, sep)[k][j],
            ),
        forall|k: int| 0 <= k < split_char(s, sep).len() ==> split_char(s, sep)[k].len() <= s.len(),
    decreases s.len(),
{
    if s.len() == 0 {
    } else if s[0] == sep {
        lemma_split_char_parts(s.drop_first(), sep);
        let rest = split_char(s.drop_first(), sep);
        let r = split_char(s, sep);
        assert forall|k: int, j: int| 0 <= k < r.len() && 0 <= j < r[k].len() implies r[k][j] != sep
            && s.contains(r[k][j]) by {
            if k > 0 {
                assert(r[k] == rest[k - 1]);
                let c = rest[k - 1][j];
                let i = choose|i: int| 0 <= i < s.drop_first().len() && s.drop_first()[i] == c;
                assert(s[i + 1] == c);
            }
        }
        assert forall|k: int| 0 <= k < r.len() implies r[k].len() <= s.len() by {
            if k > 0 {
                assert(r[k] == rest[k - 1]);
            }
        }
    } else {
        lemma_split_char_parts(s.drop_first(), sep);
        let rest = split_char(s.drop_first(), sep);
        let r = split_char(s, sep);
        assert forall|k: int, j: int| 0 <= k < r.len() && 0 <= j < r[k].len() implies r[k][j] != sep
            && s.contains(r[k][j]) by {
            if k == 0 {
                if j == 0 {
                    assert(r[0][0] == s[0]);
                    assert(s.contains(s[0]));
                } else {
                    assert(r[0][j] == rest[0][j - 1]);
                    let c = rest[0][j - 1];
                    let i = choose|i: int| 0 <= i < s.drop_first().len() && s.drop_first()[i] == c;
                    assert(s[i + 1] == c);
                }
            } else {
                assert(r[k] == rest[k]);
                let c = rest[k][j];
                let i = choose|i: int| 0 <= i < s.drop_first().len() && s.drop_first()[i] == c;
                assert(s[i + 1] == c);
            }
        }
        assert forall|k: int| 0 <= k < r.len() implies r[k].len() <= s.len() by {
            if k == 0 {
                assert(r[0] == seq![s[0]] + rest[0]);
            } else {
                assert(r[k] == rest[k]);
            }
        }
    }
}

/// A string without the separator splits into itself alone.
pub proof fn lemma_split_char_whole(s: Seq<char>, sep: char)
    requires
        forall|j: int| 0 <= j < s.len() ==> s[j] != sep,
    ensures
        split_char(s, sep) =~~= seq![s],
    decreases s.len(),
{
    if s.len() == 0 {
        assert(split_char(s, sep)[0] =~= s);
    } else {
        lemma_split_char_whole(s.drop_first(), sep);
        assert(split_char(s, sep)[0] =~= s);
    }
}

/// Splitting a separator-free prefix, a separator, and a remainder
/// yields the prefix followed by the split of the remainder.
pub proof fn lemma_split_char_concat(a: Seq<char>, b: Seq<char>, sep: char)
    requires
        forall|j: int| 0 <= j < a.len() ==> a[j] != sep,
    ensures
        split_char(a + seq![sep] + b, sep) =~~= seq![a] + split_char(b, sep),
    decreases a.len(),
{
    let s = a + seq![sep] + b;
    if a.len() == 0 {
        assert(s[0] == sep);
        assert(s.drop_first() =~= b);
    } else {
        assert(s[0] == a[0]);
        assert(s[0] != sep);
        assert(s.drop_first() =~= a.drop_first() + seq![sep] + b);
        lemma_split_char_concat(a.drop_first(), b, sep);
        let rest = split_char(s.drop_first(), sep);
        assert(rest =~~= seq![a.drop_first()] + split_char(b, sep));
        assert(seq![s[0]] + rest[0] =~= a);
        assert(rest.drop_first() =~= split_char(b, sep));
    }
}

/// Splits a string on a separator character; the parts carry no
/// separator and, joined by it, give the string back.
pub fn split(s: &str, sep: char) -> (parts: Vec<String>)
    ensures
        parts.deep_view() == split_char(s@, sep),
{
    let n = s.unicode_len();
    let mut parts: Vec<String> = Vec::new();
    let mut start: usize = 0;
    let mut i: usize = 0;
    proof {
        assert(s@.skip(0) =~= s@);
    }
    while i < n
        invariant
            0 <= start <= i <= n,
            n == s@.len(),
            forall|j: int| start <= j < i ==> s@[j] != sep,
            split_char(s@, sep) =~~= parts.deep_view() + split_char(s@.skip(start as int), sep),
        decreases n - i,
    {
        let c = s.get_char(i);
        if c == sep {
            let part = s.substring_char(start, i).to_owned();
            let ghost pre = parts.deep_view();
            parts.push(part);
            proof {
                let a = s@.subrange(start as int, i as int);
                let b = s@.skip(i as int + 1);
                assert(s@.skip(start as int) =~= a + seq![sep] + b);
                lemma_split_char_concat(a, b, sep);
                assert(parts.deep_view() =~= pre + seq![a]);
                assert(split_char(s@, sep) =~~= parts.deep_view() + split_char(b, sep));
            }
            start = i + 1;
        }
        i += 1;
    }
    let last = s.substring_char(start, n).to_owned();
    let ghost pre = parts.deep_view();
    parts.push(last);
    proof {
        let a = s@.subrange(start as int, n as int);
        assert(s@.skip(start as int) =~= a);
        lemma_split_char_whole(a, sep);
        assert(parts.deep_view() =~= pre + seq![a]);
        assert(parts.deep_view() =~~= split_char(s@, sep));
    }
    parts
}

/// Joining parts with a separator character between them.
pub open spec fn join_char(ls: Seq<Seq<char>>, sep: char) -> Seq<char>
    decreases ls.len(),
{
    if ls.len() == 0 {
        Seq::<char>::empty()
    } else if ls.len() == 1 {
        ls[0]
    } else {
        ls[0] + seq![sep] + join_char(ls.drop_first(), sep)
    }
}

pub proof fn lemma_join_char_push(ls: Seq<Seq<char>>, x: Seq<char>, sep: char)
    ensures
        ls.len() == 0 ==> join_char(ls.push(x), sep) == x,
        ls.len() > 0 ==> join_char(ls.push(x), sep) =~= join_char(ls, sep) + seq![sep] + x,
    decreases ls.len(),
{
    if ls.len() == 0 {
        assert(join_char(ls.push(x), sep) == ls.push(x)[0]);
    } else if ls.len() == 1 {
        assert(ls.push(x).drop_first() =~= seq![x]);
        assert(ls.push(x)[0] == ls[0]);
        assert(seq![x][0] == x);
        assert(join_char(seq![x], sep) == x);
        assert(join_char(ls.push(x), sep) == ls[0] + seq![sep] + x);
        assert(join_char(ls, sep) == ls[0]);
    } else {
        assert(ls.push(x).drop_first() =~= ls.drop_first().push(x));
        lemma_join_char_push(ls.drop_first(), x, sep);
        assert(ls.push(x)[0] == ls[0]);
        assert(join_char(ls.push(x), sep) == ls[0] + seq![sep] + join_char(
            ls.drop_first().push(x),
            sep,
        ));
        assert(join_char(ls.drop_first().push(x), sep) =~= join_char(ls.drop_first(), sep)
            + seq![sep] + x);
        assert(ls[0] + seq![sep] + (join_char(ls.drop_first(), sep) + seq![sep] + x) =~= (ls[0]
            + seq![sep] + join_char(ls.drop_first(), sep)) + seq![sep] + x);
    }
}

/// Joins parts with a newline between them; no trailing newline.
pub fn join_newline(parts: &Vec<String>) -> (res: String)
    ensures
        res@ == join_char(parts.deep_view(), '\n'),
{
    let mut out = String::new();
    let mut i: usize = 0;
    proof {
        assert(parts.deep_view().take(0) =~= Seq::<Seq<char>>::empty());
    }
    while i < parts.len()
        invariant
            0 <= i <= parts.len(),
            out@ == join_char(parts.deep_view().take(i as int), '\n'),
        decreases parts.len() - i,
    {
        if i > 0 {
            out.append("\n");
            proof {
                reveal_strlit("\n");
                assert(("\n")@ =~= seq!['\n']);
            }
        }
        out.append(parts[i].as_str());
        proof {
            assert(parts.deep_view().take(i as int + 1) =~= parts.deep_view().take(i as int).push(
                parts.deep_view()[i as int],
            ));
            lemma_join_char_push(parts.deep_view().take(i as int), parts.deep_view()[i as int], '\n');
        }
        i += 1;
    }
    proof {
        assert(parts.deep_view().take(parts.len() as int) =~= parts.deep_view());
    }
    out
}

/// Joining non-empty separator-free parts and splitting again gives
/// the parts back.
pub proof fn lemma_join_split(ls: Seq<Seq<char>>, sep: char)
    requires
        ls.len() >= 1,
        forall|k: int| 0 <= k < ls.len() ==> ls[k].len() > 0,
        forall|k: int, j: int| 0 <= k < ls.len() && 0 <= j < ls[k].len() ==> ls[k][j] != sep,
    ensures
        split_char(join_char(ls, sep), sep) == ls,
    decreases ls.len(),
{
    if ls.len() == 1 {
        lemma_split_char_whole(ls[0], sep);
        assert(split_char(join_char(ls, sep), sep) =~~= ls);
    } else {
        assert forall|k: int, j: int|
            0 <= k < ls.drop_first().len() && 0 <= j
                < ls.drop_first()[k].len() implies ls.drop_first()[k][j] != sep
            && ls.drop_first()[k].len() > 0 by {
            assert(ls.drop_first()[k] == ls[k + 1]);
        }
        assert forall|k: int| 0 <= k < ls.drop_first().len() implies ls.drop_first()[k].len()
            > 0 by {
            assert(ls.drop_first()[k] == ls[k + 1]);
        }
        lemma_join_split(ls.drop_first(), sep);
        lemma_split_char_concat(ls[0], join_char(ls.drop_first(), sep), sep);
        assert(split_char(join_char(ls, sep), sep) =~~= ls);
    }
}

/// Compares two strings character by character.
pub fn str_eq(a: &str, b: &str) -> (res: bool)
    ensures
        res == (a@ == b@),
{
    let na = a.unicode_len();
    let nb = b.unicode_len();
    if na != nb {
        return false;
    }
    let mut i: usize = 0;
    while i < na
        invariant
            0 <= i <= na,
            na == a@.len(),
            nb == b@.len(),
            na == nb,
            forall|j: int| 0 <= j < i ==> a@[j] == b@[j],
        decreases na - i,
    {
        if a.get_char(i) != b.get_char(i) {
            return false;
        }
        i += 1;
    }
    proof {
        assert(a@ =~= b@);
    }
    true
}

/// A run of space characters; empty for a non-positive count.
pub open spec fn spaces(n: int) -> Seq<char> {
    Seq::<char>::new(if n < 0 {
        0
    } else {
        n as nat
    }, |i: int| ' ')
}

/// A field padded with trailing spaces to a column width; a field
/// already at or past the width is left as it is.
pub open spec fn pad_to(s: Seq<char>, w: int) -> Seq<char> {
    s + spaces(w - s.len())
}

/// Appends a field padded with spaces to the given column width.
pub fn append_padded(out: &mut String, s: &str, w: usize)
    ensures
        final(out)@ == old(out)@ + pad_to(s@, w as int),
{
    out.append(s);
    let len = s.unicode_len();
    if len >= w {
        proof {
            assert(old(out)@ + s@ =~= old(out)@ + pad_to(s@, w as int));
        }
        return ;
    }
    let mut k: usize = len;
    while k < w
        invariant
            len <= k <= w,
            len == s@.len(),
            out@ == old(out)@ + s@ + spaces(k as int - len as int),
        decreases w - k,
    {
        out.append(" ");
        proof {
            reveal_strlit(" ");
            assert(old(out)@ + s@ + spaces(k as int - len as int) + (" ")@ =~= old(out)@ + s@
                + spaces(k as int + 1 - len as int));
        }
        k += 1;
    }
    proof {
        assert(old(out)@ + s@ + spaces(w as int - len as int) =~= old(out)@ + pad_to(
            s@,
            w as int,
        ));
    }
}

/// A horizontal rule of dash characters.
pub open spec fn dashes(n: int) -> Seq<char> {
    Seq::<char>::new(if n < 0 {
        0
    } else {
        n as nat
    }, |i: int| '-')
}

/// Builds a horizontal rule of the given length.
pub fn dash_line(n: usize) -> (res: String)
    ensures
        res@ == dashes(n as int),
{
    let mut out = String::new();
    let mut k: usize = 0;
    while k < n
        invariant
            0 <= k <= n,
            out@ == dashes(k as int),
        decreases n - k,
    {
        out.append("-");
        proof {
            reveal_strlit("-");
            assert(dashes(k as int) + ("-")@ =~= dashes(k as int + 1));
        }
        k += 1;
    }
    out
}

} // verus!
