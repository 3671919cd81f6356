use vstd::prelude::*;

use crate::text::{decimal, padded, push_decimal, push_padded, push_str, string_of};

verus! {

/// A floating-point value as the table reads it: its text and a key that orders values as the
/// numbers do.
#[derive(Clone, Debug)]
pub struct FloatValue {
    pub order: i64,
    pub text: String,
}

/// A calendar date and time of day.
#[derive(Clone, Debug)]
pub struct Timestamp {
    pub year: i64,
    pub month: u8,
    pub day: u8,
    pub hour: u8,
    pub minute: u8,
    pub second: u8,
}

/// One typed value of a table.
#[derive(Clone, Debug)]
pub enum Cell {
    Text(String),
    Integer(i64),
    Float(FloatValue),
    Boolean(bool),
    DateTime(Timestamp),
    Null,
}

pub open spec fn true_text() -> Seq<char> {
    seq!['t', 'r', 'u', 'e']
}

pub open spec fn false_text() -> Seq<char> {
    seq!['f', 'a', 'l', 's', 'e']
}

pub open spec fn null_text() -> Seq<char> {
    seq!['n', 'u', 'l', 'l']
}

pub open spec fn year_text(year: i64) -> Seq<char> {
    if year < 0 {
        seq!['-'] + padded((-year) as nat, 4)
    } else {
        padded(year as nat, 4)
    }
}

pub open spec fn date_text(t: Timestamp) -> Seq<char> {
    year_text(t.year) + seq!['-'] + padded(t.month as nat, 2) + seq!['-'] + padded(t.day as nat, 2)
}

pub open spec fn time_text(t: Timestamp) -> Seq<char> {
    padded(t.hour as nat, 2) + seq![':'] + padded(t.minute as nat, 2) + seq![':'] + padded(
        t.second as nat,
        2,
    )
}

/// `YYYY-MM-DD HH:MM:SS`, with a minus sign before a year before year zero.
pub open spec fn timestamp_text(t: Timestamp) -> Seq<char> {
    date_text(t) + seq![' '] + time_text(t)
}

/// How a cell is shown.
pub open spec fn display(c: Cell) -> Seq<char> {
    match c {
        Cell::Text(s) => s@,
        Cell::Integer(n) => decimal(n as int),
        Cell::Float(f) => f.text@,
        Cell::Boolean(b) => if b {
            true_text()
        } else {
            false_text()
        },
        Cell::DateTime(t) => timestamp_text(t),
        Cell::Null => null_text(),
    }
}

fn push_year(year: i64, out: &mut Vec<char>)
    ensures
        final(out)@ == old(out)@ + year_text(year),
{
    if year < 0 {
        out.push('-');
        push_padded((0i128 - year as i128) as u64, 4, out);
        assert(out@ =~= old(out)@ + year_text(year));
    } else {
        push_padded(year as u64, 4, out);
    }
}

fn push_date(t: &Timestamp, out: &mut Vec<char>)
    ensures
        final(out)@ == old(out)@ + date_text(*t),
{
    let ghost start = out@;
    push_year(t.year, out);
    out.push('-');
    push_padded(t.month as u64, 2, out);
    out.push('-');
    push_padded(t.day as u64, 2, out);
    assert(out@ =~= start + date_text(*t));
}

fn push_time(t: &Timestamp, out: &mut Vec<char>)
    ensures
        final(out)@ == old(out)@ + time_text(*t),
{
    let ghost start = out@;
    push_padded(t.hour as u64, 2, out);
    out.push(':');
    push_padded(t.minute as u64, 2, out);
    out.push(':');
    push_padded(t.second as u64, 2, out);
    assert(out@ =~= start + time_text(*t));
}

fn push_timestamp(t: &Timestamp, out: &mut Vec<char>)
    ensures
        final(out)@ == old(out)@ + timestamp_text(*t),
{
    let ghost start = out@;
    push_date(t, out);
    out.push(' ');
    push_time(t, out);
    assert(out@ =~= start + timestamp_text(*t));
}

/// The text a cell is shown as.
pub fn cell_text(c: &Cell) -> (r: String)
    ensures
        r@ == display(*c),
{
    let mut out: Vec<char> = Vec::new();
    match c {
        Cell::Text(s) => {
            push_str(&mut out, s.as_str());
        },
        Cell::Integer(n) => {
            push_decimal(*n, &mut out);
        },
        Cell::Float(f) => {
            push_str(&mut out, f.text.as_str());
        },
        Cell::Boolean(b) => {
            if *b {
                out.push('t');
                out.push('r');
                out.push('u');
                out.push('e');
            } else {
                out.push('f');
                out.push('a');
                out.push('l');
                out.push('s');
                out.push('e');
            }
        },
        Cell::DateTime(t) => {
            push_timestamp(t, &mut out);
        },
        Cell::Null => {
            out.push('n');
            out.push('u');
            out.push('l');
            out.push('l');
        },
    }
    assert(out@ =~= display(*c));
    string_of(&out)
}

/// The key a cell is ordered by: `None` for `Null`, else a sequence of integers whose
/// lexicographic order is the order of the values (texts by code point).
pub open spec fn sort_key(c: Cell) -> Option<Seq<i64>> {
    match c {
        Cell::Null => None,
        Cell::Integer(n) => Some(seq![0i64, n]),
        Cell::Float(f) => Some(seq![1i64, f.order]),
        Cell::Boolean(b) => Some(seq![2i64, if b { 1i64 } else { 0i64 }]),
        Cell::DateTime(t) => Some(
            seq![
                3i64,
                t.year,
                t.month as i64,
                t.day as i64,
                t.hour as i64,
                t.minute as i64,
                t.second as i64,
            ],
        ),
        Cell::Text(s) => Some(seq![4i64] + s@.map_values(|ch: char| ch as u32 as i64)),
    }
}

/// The ordering key of a cell, as `sort_key` gives it.
pub fn cell_sort_key(c: &Cell) -> (r: Option<Vec<i64>>)
    ensures
        match sort_key(*c) {
            None => r is None,
            Some(k) => r is Some && r->0@ == k,
        },
{
    match c {
        Cell::Null => None,
        Cell::Integer(n) => Some(vec![0i64, *n]),
        Cell::Float(f) => Some(vec![1i64, f.order]),
        Cell::Boolean(b) => Some(vec![2i64, if *b { 1i64 } else { 0i64 }]),
        Cell::DateTime(t) => Some(
            vec![
                3i64,
                t.year,
                t.month as i64,
                t.day as i64,
                t.hour as i64,
                t.minute as i64,
                t.second as i64,
            ],
        ),
        Cell::Text(s) => {
            let mut k: Vec<i64> = vec![4i64];
            for ch in it: s.as_str().chars()
                invariant
                    it.seq() == s@,
                    k@ == seq![4i64] + it.seq().take(it.index() as int).map_values(
                        |x: char| x as u32 as i64,
                    ),
            {
                k.push(ch as u32 as i64);
                assert(k@ =~= seq![4i64] + it.seq().take(it.index() + 1).map_values(
                    |x: char| x as u32 as i64,
                ));
            }
            assert(s@.take(s@.len() as int) =~= s@);
            Some(k)
        },
    }
}

} // verus!
