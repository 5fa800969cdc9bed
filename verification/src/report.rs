//! What a run writes down: the names of its files, the line that shows its
//! progress, the text of a number and the rows of a table.
//!
//! Nothing here touches a file. The caller opens the files and writes the
//! rows; this module says what they hold.

use crate::base::{Seconds, Vector};
use crate::fixed::{saturated, step_time, SCALE};
use vstd::prelude::*;
use vstd::string::StringExecFns;

verus! {

/// The character of one decimal digit.
pub open spec fn digit_char(d: int) -> char {
    if d == 0 {
        '0'
    } else if d == 1 {
        '1'
    } else if d == 2 {
        '2'
    } else if d == 3 {
        '3'
    } else if d == 4 {
        '4'
    } else if d == 5 {
        '5'
    } else if d == 6 {
        '6'
    } else if d == 7 {
        '7'
    } else if d == 8 {
        '8'
    } else {
        '9'
    }
}

/// The decimal digits of `n`, most significant first.
pub open spec fn decimal_digits(n: nat) -> Seq<char>
    decreases n,
{
    if n < 10 {
        seq![digit_char(n as int)]
    } else {
        decimal_digits(n / 10).push(digit_char((n % 10) as int))
    }
}

/// `count` zeros.
pub open spec fn zero_chars(count: nat) -> Seq<char> {
    Seq::new(count, |i: int| '0')
}

/// The decimal digits of `n`, with zeros in front where they are fewer than `width`.
pub open spec fn padded(n: nat, width: nat) -> Seq<char> {
    let digits = decimal_digits(n);
    if digits.len() >= width {
        digits
    } else {
        zero_chars((width - digits.len()) as nat) + digits
    }
}

/// The digits after the decimal point: `f` written with `width` digits, less
/// the zeros at its end.
pub open spec fn fraction_digits(f: nat, width: nat) -> Seq<char>
    decreases width,
{
    if width == 0 || f == 0 {
        Seq::empty()
    } else if f % 10 == 0 {
        fraction_digits(f / 10, (width - 1) as nat)
    } else {
        padded(f, width)
    }
}

/// The decimal text of a fixed-point number: a minus sign where it is
/// negative, the whole part, and, where there is a fraction, a point and the
/// digits of the fraction without zeros at the end.
pub open spec fn fixed_text(x: int) -> Seq<char> {
    let magnitude = if x < 0 {
        -x
    } else {
        x
    };
    let sign = if x < 0 {
        seq!['-']
    } else {
        Seq::empty()
    };
    let whole = decimal_digits((magnitude / (SCALE as int)) as nat);
    let fraction = (magnitude % (SCALE as int)) as nat;
    if fraction == 0 {
        sign + whole
    } else {
        sign + whole + seq!['.'] + fraction_digits(fraction, 6)
    }
}

fn push_digit(out: &mut String, d: u64)
    requires
        d < 10,
    ensures
        final(out)@ == old(out)@.push(digit_char(d as int)),
{
    proof {
        reveal_strlit("0");
        reveal_strlit("1");
        reveal_strlit("2");
        reveal_strlit("3");
        reveal_strlit("4");
        reveal_strlit("5");
        reveal_strlit("6");
        reveal_strlit("7");
        reveal_strlit("8");
        reveal_strlit("9");
    }
    let ghost before = out@;
    if d == 0 {
        out.append("0");
    } else if d == 1 {
        out.append("1");
    } else if d == 2 {
        out.append("2");
    } else if d == 3 {
        out.append("3");
    } else if d == 4 {
        out.append("4");
    } else if d == 5 {
        out.append("5");
    } else if d == 6 {
        out.append("6");
    } else if d == 7 {
        out.append("7");
    } else if d == 8 {
        out.append("8");
    } else {
        out.append("9");
    }
    assert(out@ =~= before.push(digit_char(d as int)));
}

fn push_decimal(out: &mut String, n: u64)
    ensures
        final(out)@ == old(out)@ + decimal_digits(n as nat),
    decreases n,
{
    let ghost before = out@;
    if n >= 10 {
        push_decimal(out, n / 10);
    }
    push_digit(out, n % 10);
    assert(out@ =~= before + decimal_digits(n as nat));
}

fn push_zeros(out: &mut String, count: usize)
    ensures
        final(out)@ == old(out)@ + zero_chars(count as nat),
{
    let ghost before = out@;
    let mut i: usize = 0;
    assert(out@ =~= before + zero_chars(0));
    while i < count
        invariant
            i <= count,
            out@ == before + zero_chars(i as nat),
        decreases count - i,
    {
        push_digit(out, 0);
        i = i + 1;
        assert(out@ =~= before + zero_chars(i as nat));
    }
}

fn push_padded(out: &mut String, n: u64, width: usize)
    ensures
        final(out)@ == old(out)@ + padded(n as nat, width as nat),
{
    let ghost before = out@;
    let digits = decimal_width(n);
    if digits < width {
        push_zeros(out, width - digits);
    }
    push_decimal(out, n);
    assert(out@ =~= before + padded(n as nat, width as nat));
}

/// Number of decimal digits of `n`.
pub fn decimal_width(n: u64) -> (w: usize)
    ensures
        w == decimal_digits(n as nat).len(),
        1 <= w <= 20,
    decreases n,
{
    if n < 10 {
        1
    } else {
        let rest = decimal_width(n / 10);
        proof {
            lemma_width_bound(n as nat);
        }
        rest + 1
    }
}

/// A number below `10^20` has at most twenty digits.
proof fn lemma_width_bound(n: nat)
    requires
        n <= 0xffff_ffff_ffff_ffff,
    ensures
        decimal_digits(n).len() <= 20,
{
    reveal_with_fuel(decimal_digits, 21);
}

/// The index `i`, written with as many digits as `count` has, zeros in front.
pub fn padded_index(i: usize, count: usize) -> (s: String)
    ensures
        s@ == padded(i as nat, decimal_digits(count as nat).len()),
{
    let mut out = String::new();
    push_padded(&mut out, i as u64, decimal_width(count as u64));
    assert(out@ =~= padded(i as nat, decimal_digits(count as nat).len()));
    out
}

/// Name of the file that holds trajectory `i` of `count`: a prefix, the
/// padded index and a suffix.
pub fn file_name(prefix: &str, i: usize, count: usize, suffix: &str) -> (s: String)
    ensures
        s@ == prefix@ + padded(i as nat, decimal_digits(count as nat).len()) + suffix@,
{
    let mut out = String::new();
    out.append(prefix);
    push_padded(&mut out, i as u64, decimal_width(count as u64));
    out.append(suffix);
    assert(out@ =~= prefix@ + padded(i as nat, decimal_digits(count as nat).len()) + suffix@);
    out
}

/// The line that shows how far a run has come: item `done` of `count`.
pub fn progress_line(done: usize, count: usize) -> (s: String)
    ensures
        s@ == "\rWorking... ["@ + padded(done as nat, decimal_digits(count as nat).len()) + "/"@
            + padded(count as nat, decimal_digits(count as nat).len()) + "]"@,
{
    let width = decimal_width(count as u64);
    let mut out = String::new();
    out.append("\rWorking... [");
    push_padded(&mut out, done as u64, width);
    out.append("/");
    push_padded(&mut out, count as u64, width);
    out.append("]");
    assert(out@ =~= "\rWorking... ["@ + padded(done as nat, decimal_digits(count as nat).len())
        + "/"@ + padded(count as nat, decimal_digits(count as nat).len()) + "]"@);
    out
}

fn push_fraction(out: &mut String, f: u64, width: usize)
    requires
        width <= 6,
    ensures
        final(out)@ == old(out)@ + fraction_digits(f as nat, width as nat),
    decreases width,
{
    let ghost before = out@;
    if width == 0 || f == 0 {
        assert(out@ =~= before + fraction_digits(f as nat, width as nat));
    } else if f % 10 == 0 {
        push_fraction(out, f / 10, width - 1);
    } else {
        push_padded(out, f, width);
    }
}

/// Writes a fixed-point number in decimal.
pub fn fixed_to_string(x: i64) -> (s: String)
    ensures
        s@ == fixed_text(x as int),
{
    let magnitude: u64 = if x < 0 {
        (-(x as i128)) as u64
    } else {
        x as u64
    };
    let mut out = String::new();
    if x < 0 {
        proof {
            reveal_strlit("-");
        }
        out.append("-");
        assert(out@ =~= seq!['-']);
    }
    let ghost sign = out@;
    push_decimal(&mut out, magnitude / (SCALE as u64));
    let fraction = magnitude % (SCALE as u64);
    if fraction != 0 {
        proof {
            reveal_strlit(".");
        }
        out.append(".");
        push_fraction(&mut out, fraction, 6);
        assert(out@ =~= sign + decimal_digits((magnitude / (SCALE as u64)) as nat) + seq!['.']
            + fraction_digits(fraction as nat, 6));
    }
    out
}

/// The row of one sample: its time, then the components of its position.
pub open spec fn is_row<V: Vector>(row: Seq<i64>, time: int, position: V) -> bool {
    &&& row.len() == 1 + V::dim()
    &&& row[0] == time
    &&& forall|c: int| 0 <= c < V::dim() ==> #[trigger] row[1 + c] == position.coords()[c]
}

/// The row of one step of a pair of traces: the time, then the components of
/// the first position, then those of the second.
pub open spec fn is_pair_row<V: Vector>(row: Seq<i64>, time: int, first: V, second: V) -> bool {
    &&& row.len() == 1 + 2 * V::dim()
    &&& row[0] == time
    &&& forall|c: int| 0 <= c < V::dim() ==> #[trigger] row[1 + c] == first.coords()[c]
    &&& forall|c: int|
        0 <= c < V::dim() ==> #[trigger] row[1 + V::dim() + c] == second.coords()[c]
}

fn push_components<V: Vector>(row: &mut Vec<i64>, position: V)
    ensures
        final(row)@.len() == old(row)@.len() + V::dim(),
        forall|c: int| 0 <= c < old(row)@.len() ==> final(row)@[c] == old(row)@[c],
        forall|c: int|
            0 <= c < V::dim() ==> #[trigger] final(row)@[old(row)@.len() + c] == position.coords()[c],
{
    let ghost before = row@;
    let mut values = position.repr();
    let ghost encoded = values@;
    row.append(&mut values);
    assert forall|c: int| 0 <= c < V::dim() implies #[trigger] row@[before.len() + c]
        == position.coords()[c] by {
        assert(row@[before.len() + c] == encoded[c]);
    }
}

/// The rows of a sparse trajectory: one for each sample.
pub fn trajectory_rows<V: Vector>(points: &Vec<(Seconds, V)>) -> (rows: Vec<Vec<i64>>)
    ensures
        rows@.len() == points@.len(),
        forall|i: int|
            0 <= i < rows@.len() ==> is_row(
                (#[trigger] rows@[i])@,
                points@[i].0 as int,
                points@[i].1,
            ),
{
    let mut rows: Vec<Vec<i64>> = Vec::new();
    let mut i: usize = 0;
    while i < points.len()
        invariant
            i <= points@.len(),
            rows@.len() == i,
            forall|j: int|
                0 <= j < i ==> is_row((#[trigger] rows@[j])@, points@[j].0 as int, points@[j].1),
        decreases points@.len() - i,
    {
        let (time, position) = points[i];
        let mut row: Vec<i64> = Vec::new();
        row.push(time);
        push_components(&mut row, position);
        assert(is_row(row@, time as int, position));
        let ghost before = rows@;
        rows.push(row);
        assert forall|j: int| 0 <= j < i + 1 implies is_row(
            (#[trigger] rows@[j])@,
            points@[j].0 as int,
            points@[j].1,
        ) by {
            if j < i {
                assert(rows@[j] == before[j]);
            }
        }
        i = i + 1;
    }
    rows
}

/// The rows of a pair of traces that were recorded at the time step
/// `resolution`: one for each step that both traces have.
pub fn formation_rows<V: Vector>(resolution: Seconds, first: &Vec<V>, second: &Vec<V>) -> (rows:
    Vec<Vec<i64>>)
    ensures
        rows@.len() == if first@.len() <= second@.len() {
            first@.len()
        } else {
            second@.len()
        },
        forall|i: int|
            0 <= i < rows@.len() ==> is_pair_row(
                (#[trigger] rows@[i])@,
                saturated(i * resolution),
                first@[i],
                second@[i],
            ),
{
    let count = if first.len() <= second.len() {
        first.len()
    } else {
        second.len()
    };
    let mut rows: Vec<Vec<i64>> = Vec::new();
    let mut i: usize = 0;
    while i < count
        invariant
            i <= count,
            count <= first@.len(),
            count <= second@.len(),
            rows@.len() == i,
            forall|j: int|
                0 <= j < i ==> is_pair_row(
                    (#[trigger] rows@[j])@,
                    saturated(j * resolution),
                    first@[j],
                    second@[j],
                ),
        decreases count - i,
    {
        let mut row: Vec<i64> = Vec::new();
        row.push(step_time(i, resolution));
        push_components(&mut row, first[i]);
        push_components(&mut row, second[i]);
        assert(is_pair_row(row@, saturated(i * resolution), first@[i as int], second@[i as int]));
        let ghost before = rows@;
        rows.push(row);
        assert forall|j: int| 0 <= j < i + 1 implies is_pair_row(
            (#[trigger] rows@[j])@,
            saturated(j * resolution),
            first@[j],
            second@[j],
        ) by {
            if j < i {
                assert(rows@[j] == before[j]);
            }
        }
        i = i + 1;
    }
    rows
}

} // verus!
