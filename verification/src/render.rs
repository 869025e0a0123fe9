//! Verified rendering of event records into human-readable console
//! lines, including decimal formatting of integer field values.

use vstd::prelude::*;
use vstd::string::*;
use crate::data::{FieldValue, Level, ValueV};

verus! {

/// The character of one decimal digit.
pub open spec fn dec_digit(d: nat) -> char {
    if d == 0 {
        '0'
    } else if d == 1 {
        '1'
    } else if d == 2 {
        '2'
    } else if d == 3 {
        '3'
    } else if d == 4 {
        '4'
    } else if d == 5 {
        '5'
    } else if d == 6 {
        '6'
    } else if d == 7 {
        '7'
    } else if d == 8 {
        '8'
    } else {
        '9'
    }
}

/// Decimal rendering of a natural number, most significant digit first.
pub open spec fn spec_dec_nat(n: nat) -> Seq<char>
    decreases n,
{
    if n < 10 {
        seq![dec_digit(n)]
    } else {
        spec_dec_nat(n / 10).push(dec_digit(n % 10))
    }
}

/// Decimal rendering of an integer: a minus sign before the magnitude
/// for negative values.
pub open spec fn spec_dec_int(n: int) -> Seq<char> {
    if n < 0 {
        seq!['-'] + spec_dec_nat((-n) as nat)
    } else {
        spec_dec_nat(n as nat)
    }
}

/// One decimal digit as a string slice.
fn digit_str(d: u64) -> (r: &'static str)
    requires
        d < 10,
    ensures
        r@ == seq![dec_digit(d as nat)],
{
    proof {
        reveal_strlit("0");
        reveal_strlit("1");
        reveal_strlit("2");
        reveal_strlit("3");
        reveal_strlit("4");
        reveal_strlit("5");
        reveal_strlit("6");
        reveal_strlit("7");
        reveal_strlit("8");
        reveal_strlit("9");
    }
    let r: &'static str = if d == 0 {
        "0"
    } else if d == 1 {
        "1"
    } else if d == 2 {
        "2"
    } else if d == 3 {
        "3"
    } else if d == 4 {
        "4"
    } else if d == 5 {
        "5"
    } else if d == 6 {
        "6"
    } else if d == 7 {
        "7"
    } else if d == 8 {
        "8"
    } else {
        "9"
    };
    proof {
        assert(r@ =~= seq![dec_digit(d as nat)]);
    }
    r
}

/// Decimal rendering of a `u64`.
pub fn dec_u64(n: u64) -> (r: String)
    ensures
        r@ == spec_dec_nat(n as nat),
    decreases n,
{
    if n < 10 {
        String::from_str(digit_str(n))
    } else {
        let mut r = dec_u64(n / 10);
        r.append(digit_str(n % 10));
        proof {
            assert(r@ =~= spec_dec_nat(n as nat));
        }
        r
    }
}

/// Decimal rendering of an `i64`.
pub fn dec_i64(n: i64) -> (r: String)
    ensures
        r@ == spec_dec_int(n as int),
{
    if n >= 0 {
        dec_u64(n as u64)
    } else {
        let wide: i128 = n as i128;
        let mag: u64 = (-wide) as u64;
        proof {
            assert(mag as nat == (-(n as int)) as nat);
        }
        let mut r = String::from_str("-");
        let digits = dec_u64(mag);
        r.append(digits.as_str());
        proof {
            reveal_strlit("-");
            assert(r@ =~= spec_dec_int(n as int));
        }
        r
    }
}

/// The text of a severity level.
pub open spec fn spec_level_text(l: Level) -> Seq<char> {
    match l {
        Level::Trace => "TRACE"@,
        Level::Debug => "DEBUG"@,
        Level::Info => "INFO"@,
        Level::Warn => "WARN"@,
        Level::Error => "ERROR"@,
    }
}

/// The text of a severity level, as a string slice.
pub fn level_text(l: Level) -> (r: &'static str)
    ensures
        r@ == spec_level_text(l),
{
    match l {
        Level::Trace => "TRACE",
        Level::Debug => "DEBUG",
        Level::Info => "INFO",
        Level::Warn => "WARN",
        Level::Error => "ERROR",
    }
}

/// The text of one field value.
pub open spec fn spec_value_text(v: ValueV) -> Seq<char> {
    match v {
        ValueV::Text(s) => s,
        ValueV::Integer(i) => spec_dec_int(i as int),
        ValueV::Boolean(b) => if b {
            "true"@
        } else {
            "false"@
        },
    }
}

/// The text of one field value, rendered.
pub fn value_text(v: &FieldValue) -> (r: String)
    ensures
        r@ == spec_value_text(v@),
{
    match v {
        FieldValue::Text(s) => s.clone(),
        FieldValue::Integer(i) => dec_i64(*i),
        FieldValue::Boolean(b) => {
            if *b {
                String::from_str("true")
            } else {
                String::from_str("false")
            }
        },
    }
}

/// The rendered tail of a line for an ordered field list: one
/// ` name=value` piece per field, in order.
pub open spec fn spec_fields_text(fs: Seq<(Seq<char>, ValueV)>) -> Seq<char>
    decreases fs.len(),
{
    if fs.len() == 0 {
        Seq::empty()
    } else {
        spec_fields_text(fs.drop_last()) + " "@ + fs.last().0 + "="@ + spec_value_text(
            fs.last().1,
        )
    }
}

/// Renders an ordered field list.
pub fn fields_text(fields: &Vec<(String, FieldValue)>) -> (r: String)
    ensures
        r@ == spec_fields_text(crate::data::fields_view(fields@)),
{
    let ghost all: Seq<(Seq<char>, ValueV)> = crate::data::fields_view(fields@);
    let mut r = String::new();
    let mut i: usize = 0;
    proof {
        assert(r@ =~= spec_fields_text(all.take(0)));
    }
    while i < fields.len()
        invariant
            i <= fields.len(),
            all == crate::data::fields_view(fields@),
            all.len() == fields@.len(),
            r@ == spec_fields_text(all.take(i as int)),
        decreases fields.len() - i,
    {
        r.append(" ");
        r.append(fields[i].0.as_str());
        r.append("=");
        let value = value_text(&fields[i].1);
        r.append(value.as_str());
        proof {
            reveal_strlit(" ");
            reveal_strlit("=");
            let pre = all.take(i as int);
            let cur = all.take(i + 1int);
            assert(cur.drop_last() =~= pre);
            assert(cur.last() == all[i as int]);
            assert(all[i as int].0 == fields@[i as int].0@);
            assert(all[i as int].1 == fields@[i as int].1@);
            assert(r@ =~= spec_fields_text(cur));
        }
        i += 1;
    }
    proof {
        assert(all.take(fields@.len() as int) =~= all);
    }
    r
}

/// The rendered console line for an event: severity, the name of the
/// nearest enclosing span (`-` when there is none), the message, and
/// the fields.
pub open spec fn spec_line(
    level: Level,
    span_name: Option<Seq<char>>,
    message: Seq<char>,
    fields: Seq<(Seq<char>, ValueV)>,
) -> Seq<char> {
    "["@ + spec_level_text(level) + "] "@ + (match span_name {
        Some(n) => n,
        None => "-"@,
    }) + ": "@ + message + spec_fields_text(fields)
}

/// Renders one console line.
pub fn render_line(
    level: Level,
    span_name: Option<&String>,
    message: &str,
    fields: &Vec<(String, FieldValue)>,
) -> (r: String)
    ensures
        r@ == spec_line(
            level,
            match span_name {
                Some(n) => Some(n@),
                None => None,
            },
            message@,
            crate::data::fields_view(fields@),
        ),
{
    let mut r = String::from_str("[");
    r.append(level_text(level));
    r.append("] ");
    match span_name {
        Some(n) => r.append(n.as_str()),
        None => r.append("-"),
    }
    r.append(": ");
    r.append(message);
    let tail = fields_text(fields);
    r.append(tail.as_str());
    proof {
        assert(r@ =~= spec_line(
            level,
            match span_name {
                Some(n) => Some(n@),
                None => None,
            },
            message@,
            crate::data::fields_view(fields@),
        ));
    }
    r
}

/// Every rendered line carries the enclosing span's name exactly: it
/// stands as the contiguous piece of the line right after the opening
/// bracket, the level text and the closing bracket, and the message
/// stands right after the name and the separator.
pub proof fn lemma_line_contains_span_and_message(
    level: Level,
    name: Seq<char>,
    message: Seq<char>,
    fields: Seq<(Seq<char>, ValueV)>,
)
    ensures
        ({
            let line = spec_line(level, Some(name), message, fields);
            let name_start = 3 + spec_level_text(level).len();
            let msg_start = name_start + name.len() + 2;
            &&& line.len() >= msg_start + message.len()
            &&& line.subrange(name_start as int, name_start + name.len() as int) == name
            &&& line.subrange(msg_start as int, msg_start + message.len() as int) == message
        }),
{
    let line = spec_line(level, Some(name), message, fields);
    let name_start = 3 + spec_level_text(level).len();
    let msg_start = name_start + name.len() + 2;
    reveal_strlit("[");
    reveal_strlit("] ");
    reveal_strlit(": ");
    assert(line.subrange(name_start as int, name_start + name.len() as int) =~= name);
    assert(line.subrange(msg_start as int, msg_start + message.len() as int) =~= message);
}

} // verus!
