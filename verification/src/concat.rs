use crate::arith;
use crate::numeric_text;
use crate::render;
use crate::render::{render_integer, render_real};
use crate::value;
use crate::value::{OwnedValue, Text};
use vstd::pervasive::unreached;
use vstd::prelude::*;
use vstd::string::*;

verus! {

/// A value as text.
pub open spec fn text_of(value: OwnedValue) -> Seq<char> {
    match value {
        OwnedValue::Text(text) => text@,
        OwnedValue::Integer(i) => render::integer_text(i as int),
        OwnedValue::Float(f) => render::real_text(f),
        _ => seq![],
    }
}

/// `joined` is what joining two values as text gives: NULL beside NULL, and otherwise the text of
/// the first value followed by the text of the second.
pub open spec fn joins(lhs: OwnedValue, rhs: OwnedValue, joined: OwnedValue) -> bool {
    if lhs is Null || rhs is Null {
        joined is Null
    } else {
        joined is Text && text_of(joined) == text_of(lhs) + text_of(rhs)
    }
}

/// What the text of a value is: a text as it stands, a number in decimal notation, which begins with
/// a minus sign exactly where the number is negative and reads back as the number.
fn render_value(value: &OwnedValue) -> (text: String)
    requires
        value is Text || value is Integer || value is Float,
    ensures
        text@ == text_of(*value),
        *value matches OwnedValue::Text(own) ==> text@ == own@,
        *value matches OwnedValue::Integer(i) ==> {
            &&& text@ == render::integer_text(i as int)
            &&& numeric_text::numeric_value(text@) == OwnedValue::Integer(i)
            &&& text@.len() > 0
            &&& text@[0] == '-' <==> i < 0
        },
        *value matches OwnedValue::Float(f) ==> {
            &&& text@ == render::real_text(f)
            &&& f.finite() ==> value::same_value(
                numeric_text::numeric_value(text@),
                OwnedValue::Float(f),
            )
            &&& text@.len() > 0
            &&& !f.nan() ==> (text@[0] == '-' <==> f.negative())
        },
{
    match value {
        OwnedValue::Text(text) => text.as_str().to_owned(),
        OwnedValue::Integer(i) => render_integer(*i),
        OwnedValue::Float(f) => render_real(f),
        _ => unreached(),
    }
}

/// Joins two values as text. What stands before or behind a text that was joined, read as a number,
/// is the other value where that is a number.
pub fn exec_concat(lhs: &OwnedValue, rhs: &OwnedValue) -> (result: OwnedValue)
    requires
        arith::blob_meets_null(*lhs, *rhs),
    ensures
        joins(*lhs, *rhs, result),
        lhs is Null || rhs is Null ==> result is Null,
        !(lhs is Null || rhs is Null) ==> (result matches OwnedValue::Text(text) && {
            let first = if lhs is Integer {
                render::integer_text(lhs->Integer_0 as int)
            } else if lhs is Float {
                render::real_text(lhs->Float_0)
            } else {
                lhs->Text_0@
            };
            let second = if rhs is Integer {
                render::integer_text(rhs->Integer_0 as int)
            } else if rhs is Float {
                render::real_text(rhs->Float_0)
            } else {
                rhs->Text_0@
            };
            text@ == first + second
        }),
        // Behind a text.
        *lhs matches OwnedValue::Text(own) ==> (*rhs matches OwnedValue::Integer(i) ==> (result matches
            OwnedValue::Text(text) && {
            let part = text@.skip(own@.len() as int);
            &&& text@.take(own@.len() as int) == own@
            &&& numeric_text::numeric_value(part) == OwnedValue::Integer(i)
            &&& part.len() > 0
            &&& part[0] == '-' <==> i < 0
        })),
        *lhs matches OwnedValue::Text(own) ==> (*rhs matches OwnedValue::Float(f) ==> (result matches
            OwnedValue::Text(text) && {
            let part = text@.skip(own@.len() as int);
            &&& text@.take(own@.len() as int) == own@
            &&& f.finite() ==> value::same_value(
                numeric_text::numeric_value(part),
                OwnedValue::Float(f),
            )
            &&& part.len() > 0
            &&& !f.nan() ==> (part[0] == '-' <==> f.negative())
        })),
        // Before a text.
        *rhs matches OwnedValue::Text(own) ==> (*lhs matches OwnedValue::Integer(i) ==> (result matches
            OwnedValue::Text(text) && {
            let part = text@.take(text@.len() - own@.len());
            &&& text@.skip(text@.len() - own@.len()) == own@
            &&& numeric_text::numeric_value(part) == OwnedValue::Integer(i)
            &&& part.len() > 0
            &&& part[0] == '-' <==> i < 0
        })),
        *rhs matches OwnedValue::Text(own) ==> (*lhs matches OwnedValue::Float(f) ==> (result matches
            OwnedValue::Text(text) && {
            let part = text@.take(text@.len() - own@.len());
            &&& text@.skip(text@.len() - own@.len()) == own@
            &&& f.finite() ==> value::same_value(
                numeric_text::numeric_value(part),
                OwnedValue::Float(f),
            )
            &&& part.len() > 0
            &&& !f.nan() ==> (part[0] == '-' <==> f.negative())
        })),
        // Two numbers.
        lhs is Integer || lhs is Float ==> (rhs is Integer || rhs is Float ==> (result matches
            OwnedValue::Text(text) && exists|at: int|
            {
                &&& 0 < at < text@.len()
                &&& *lhs matches OwnedValue::Integer(i) ==> numeric_text::numeric_value(
                    #[trigger] text@.take(at),
                ) == OwnedValue::Integer(i)
                &&& *lhs matches OwnedValue::Float(f) ==> (f.finite() ==> value::same_value(
                    numeric_text::numeric_value(text@.take(at)),
                    OwnedValue::Float(f),
                ))
                &&& *rhs matches OwnedValue::Integer(i) ==> numeric_text::numeric_value(
                    text@.skip(at),
                ) == OwnedValue::Integer(i)
                &&& *rhs matches OwnedValue::Float(f) ==> (f.finite() ==> value::same_value(
                    numeric_text::numeric_value(text@.skip(at)),
                    OwnedValue::Float(f),
                ))
            })),
{
    match (lhs, rhs) {
        (OwnedValue::Null, _) | (_, OwnedValue::Null) => OwnedValue::Null,
        (OwnedValue::Blob(_), _) | (_, OwnedValue::Blob(_)) => unreached(),
        _ => {
            let mut out: String = render_value(lhs);
            let end: String = render_value(rhs);
            let ghost first = out@;
            out.append(end.as_str());
            proof {
                let at = first.len() as int;
                assert(out@.take(at) =~= first);
                assert(out@.skip(at) =~= end@);
            }
            OwnedValue::Text(Text { value: out })
        },
    }
}

} // verus!
