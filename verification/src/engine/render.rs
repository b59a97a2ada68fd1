//! How a selection is shown: one line of column names, one line per row.

use super::relation::{Selection, SelectionView};
use super::table::{Record, Value, ValueView};
use crate::query::ast::names_view;
use vstd::prelude::*;
use vstd::string::{StrSliceExecFns, StringExecFns};

verus! {

/// The character of the decimal digit `d`.
pub open spec fn digit_char(d: int) -> char {
    seq!['0', '1', '2', '3', '4', '5', '6', '7', '8', '9'][d]
}

/// The decimal digits of `n`, most significant first, without leading zeros.
pub open spec fn digits(n: nat) -> Seq<char>
    decreases n,
{
    if n < 10 {
        seq![digit_char(n as int)]
    } else {
        digits(n / 10).push(digit_char((n % 10) as int))
    }
}

/// The decimal form of `n`: a minus sign where it is negative, then the
/// digits of its magnitude.
pub open spec fn decimal(n: int) -> Seq<char> {
    if n < 0 {
        seq!['-'] + digits((-n) as nat)
    } else {
        digits(n as nat)
    }
}

/// The parts one after another, with `sep` between each two.
pub open spec fn joined(parts: Seq<Seq<char>>, sep: Seq<char>) -> Seq<char>
    decreases parts.len(),
{
    if parts.len() == 0 {
        Seq::empty()
    } else if parts.len() == 1 {
        parts[0]
    } else {
        joined(parts.drop_last(), sep) + sep + parts.last()
    }
}

/// How a value is shown: an integer in decimal, a string as it is.
pub open spec fn shown(value: ValueView) -> Seq<char> {
    match value {
        ValueView::Int(n) => decimal(n as int),
        ValueView::VarChar(s) => s,
    }
}

/// The line of a row: its values as they are shown, with a comma and a space
/// between each two.
pub open spec fn row_line(row: Seq<ValueView>) -> Seq<char> {
    joined(row.map_values(|v: ValueView| shown(v)), ", "@)
}

/// The lines of a selection: the names of the columns, then the rows.
pub open spec fn selection_lines(selection: SelectionView) -> Seq<Seq<char>> {
    seq![joined(selection.columns, ", "@)] + selection.rows.map_values(|row: Seq<ValueView>| row_line(row))
}

/// Appends the decimal digits of `n` to `out`.
fn push_digits(out: &mut String, n: u32)
    ensures
        final(out)@ == old(out)@ + digits(n as nat),
    decreases n,
{
    if n >= 10 {
        push_digits(out, n / 10);
    }
    let d: usize = (n % 10) as usize;
    let all = "0123456789";
    proof {
        reveal_strlit("0123456789");
        assert(all@ =~= seq!['0', '1', '2', '3', '4', '5', '6', '7', '8', '9']);
        assert(all.is_ascii());
    }
    let one = all.substring_ascii(d, d + 1);
    assert(one@ =~= seq![digit_char(d as int)]);
    let ghost before = out@;
    out.append(one);
    proof {
        if n >= 10 {
            assert(out@ =~= old(out)@ + digits((n / 10) as nat).push(digit_char((n % 10) as int)));
        } else {
            assert(out@ =~= old(out)@ + seq![digit_char(n as int)]);
        }
    }
}

/// The decimal form of `n`.
pub fn int_to_string(n: i32) -> (s: String)
    ensures
        s@ == decimal(n as int),
{
    let mut s = String::new();
    if n < 0 {
        proof {
            reveal_strlit("-");
        }
        s.append("-");
        assert(s@ =~= seq!['-']);
        let m: u32 = (-(n as i64)) as u32;
        push_digits(&mut s, m);
    } else {
        push_digits(&mut s, n as u32);
        assert(s@ =~= digits(n as nat));
    }
    s
}

/// How `value` is shown.
pub fn show(value: &Value) -> (s: String)
    ensures
        s@ == shown(value@),
{
    match value {
        Value::Int(n) => int_to_string(*n),
        Value::VarChar(t) => t.clone(),
    }
}

/// The parts one after another, with `sep` between each two.
pub fn join(parts: &Vec<String>, sep: &str) -> (s: String)
    ensures
        s@ == joined(names_view(parts@), sep@),
{
    let ghost all = names_view(parts@);
    let mut s = String::new();
    let mut i: usize = 0;
    assert(all.take(0) =~= Seq::<Seq<char>>::empty());
    while i < parts.len()
        invariant
            i <= parts.len(),
            all == names_view(parts@),
            s@ == joined(all.take(i as int), sep@),
        decreases parts.len() - i,
    {
        let ghost before = s@;
        proof {
            assert(all.take(i + 1).drop_last() =~= all.take(i as int));
            assert(all.take(i + 1).last() == parts@[i as int]@);
        }
        if i > 0 {
            s.append(sep);
        }
        s.append(parts[i].as_str());
        proof {
            if i == 0 {
                assert(s@ =~= all.take(1)[0]);
            } else {
                assert(s@ =~= before + sep@ + parts@[i as int]@);
            }
        }
        i += 1;
    }
    assert(all.take(i as int) =~= all);
    s
}

impl Record {
    /// The line of the record: its values as they are shown, with a comma and
    /// a space between each two.
    pub fn line(&self) -> (s: String)
        ensures
            s@ == row_line(self@),
    {
        let ghost all = self@.map_values(|v: ValueView| shown(v));
        let mut parts: Vec<String> = Vec::new();
        let mut i: usize = 0;
        while i < self.values.len()
            invariant
                i <= self.values.len(),
                all == self@.map_values(|v: ValueView| shown(v)),
                names_view(parts@) == all.take(i as int),
            decreases self.values.len() - i,
        {
            let ghost before = names_view(parts@);
            let part = show(&self.values[i]);
            assert(part@ == all[i as int]);
            parts.push(part);
            assert(names_view(parts@) =~= before.push(part@));
            assert(names_view(parts@) =~= all.take(i + 1));
            i += 1;
        }
        assert(all.take(i as int) =~= all);
        join(&parts, ", ")
    }
}

impl Selection {
    /// The lines in which the selection is shown: the names of the columns,
    /// then one line per row.
    pub fn lines(&self) -> (out: Vec<String>)
        ensures
            names_view(out@) == selection_lines(self@),
    {
        let ghost rows = self@.rows.map_values(|row: Seq<ValueView>| row_line(row));
        let mut out: Vec<String> = Vec::new();
        let head = join(&self.columns, ", ");
        out.push(head);
        assert(names_view(out@) =~= seq![head@]);
        let mut r: usize = 0;
        while r < self.rows.len()
            invariant
                r <= self.rows.len(),
                rows == self@.rows.map_values(|row: Seq<ValueView>| row_line(row)),
                names_view(out@) == seq![head@] + rows.take(r as int),
            decreases self.rows.len() - r,
        {
            let ghost before = names_view(out@);
            let line = self.rows[r].line();
            assert(line@ == rows[r as int]);
            out.push(line);
            assert(names_view(out@) =~= before.push(line@));
            assert(names_view(out@) =~= seq![head@] + rows.take(r + 1));
            r += 1;
        }
        assert(rows.take(r as int) =~= rows);
        out
    }
}

} // verus!
