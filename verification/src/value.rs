use crate::binary64::Real;
use crate::numeric_text;
use crate::numeric_text::cast_text_to_numeric;
use crate::real_arith;
use vstd::pervasive::unreached;
use vstd::prelude::*;
use vstd::string::*;

verus! {

/// A text value.
#[derive(Clone, Debug)]
pub struct Text {
    pub value: String,
}

impl View for Text {
    type V = Seq<char>;

    open spec fn view(&self) -> Seq<char> {
        self.value@
    }
}

impl Text {
    pub fn from_str(value: &str) -> (text: Text)
        ensures
            text@ == value@,
    {
        Text { value: value.to_owned() }
    }

    pub fn as_str(&self) -> (value: &str)
        ensures
            value@ == self@,
    {
        self.value.as_str()
    }
}

/// A value that a register holds.
#[derive(Clone, Debug)]
pub enum OwnedValue {
    Null,
    Integer(i64),
    Float(Real),
    Text(Text),
    Blob(Vec<u8>),
}

/// What an arithmetic operation sees of a value: a text is read as a number.
#[derive(Clone, Copy, Debug)]
pub enum Operand {
    Null,
    Integer(i64),
    Float(Real),
    Blob,
}

impl Operand {
    /// A number that equals zero.
    pub open spec fn is_zero_spec(self) -> bool {
        match self {
            Operand::Integer(i) => i == 0,
            Operand::Float(f) => f.zero(),
            _ => false,
        }
    }

    /// The number as a real number.
    pub open spec fn real_spec(self) -> Real {
        match self {
            Operand::Integer(i) => real_arith::of_integer(i as int),
            Operand::Float(f) => f,
            _ => arbitrary(),
        }
    }

    /// The number as an integer: the integer part of a real number.
    pub open spec fn integer_spec(self) -> i64 {
        match self {
            Operand::Integer(i) => i,
            Operand::Float(f) => real_arith::integer_part(f),
            _ => arbitrary(),
        }
    }

    /// An integer or a real number.
    pub open spec fn is_number(self) -> bool {
        self is Integer || self is Float
    }

    pub fn is_zero(&self) -> (result: bool)
        ensures
            result == self.is_zero_spec(),
    {
        match self {
            Operand::Integer(i) => *i == 0,
            Operand::Float(f) => f.is_zero(),
            _ => false,
        }
    }

    /// The number as a real number.
    pub fn to_real(&self) -> (result: Real)
        requires
            self.is_number(),
        ensures
            result == self.real_spec(),
    {
        match self {
            Operand::Integer(i) => Real::from_integer(*i),
            Operand::Float(f) => *f,
            _ => unreached(),
        }
    }

    /// The number as an integer.
    pub fn to_integer(&self) -> (result: i64)
        requires
            self.is_number(),
        ensures
            result == self.integer_spec(),
    {
        match self {
            Operand::Integer(i) => *i,
            Operand::Float(f) => f.to_integer(),
            _ => unreached(),
        }
    }
}

/// Values are compared by what they hold, and an integer equals the real number nearest to it.
pub open spec fn same_value(a: OwnedValue, b: OwnedValue) -> bool {
    match (a, b) {
        (OwnedValue::Null, OwnedValue::Null) => true,
        (OwnedValue::Integer(x), OwnedValue::Integer(y)) => x == y,
        (OwnedValue::Integer(x), OwnedValue::Float(y)) => real_arith::of_integer(x as int).equals(
            y,
        ),
        (OwnedValue::Float(x), OwnedValue::Integer(y)) => x.equals(
            real_arith::of_integer(y as int),
        ),
        (OwnedValue::Float(x), OwnedValue::Float(y)) => x.equals(y),
        (OwnedValue::Text(x), OwnedValue::Text(y)) => x@ == y@,
        (OwnedValue::Blob(x), OwnedValue::Blob(y)) => x@ == y@,
        _ => false,
    }
}

/// Whether two byte strings are the same.
fn same_bytes(a: &Vec<u8>, b: &Vec<u8>) -> (result: bool)
    ensures
        result == (a@ == b@),
{
    if a.len() != b.len() {
        return false;
    }
    let mut i: usize = 0;
    while i < a.len()
        invariant
            i <= a@.len(),
            a@.len() == b@.len(),
            forall|j: int| 0 <= j < i ==> a@[j] == b@[j],
        decreases a@.len() - i,
    {
        if a[i] != b[i] {
            return false;
        }
        i = i + 1;
    }
    assert(a@ =~= b@);
    true
}

impl PartialEq for OwnedValue {
    fn eq(&self, other: &OwnedValue) -> (result: bool) {
        match (self, other) {
            (OwnedValue::Null, OwnedValue::Null) => true,
            (OwnedValue::Integer(x), OwnedValue::Integer(y)) => *x == *y,
            (OwnedValue::Integer(x), OwnedValue::Float(y)) => Real::from_integer(*x) == *y,
            (OwnedValue::Float(x), OwnedValue::Integer(y)) => *x == Real::from_integer(*y),
            (OwnedValue::Float(x), OwnedValue::Float(y)) => *x == *y,
            (OwnedValue::Text(x), OwnedValue::Text(y)) => x.value == y.value,
            (OwnedValue::Blob(x), OwnedValue::Blob(y)) => same_bytes(x, y),
            _ => false,
        }
    }
}

impl vstd::std_specs::cmp::PartialEqSpecImpl for OwnedValue {
    open spec fn obeys_eq_spec() -> bool {
        true
    }

    open spec fn eq_spec(&self, other: &OwnedValue) -> bool {
        same_value(*self, *other)
    }
}

impl OwnedValue {
    /// What an arithmetic operation sees of the value.
    pub open spec fn operand_spec(self) -> Operand {
        match self {
            OwnedValue::Null => Operand::Null,
            OwnedValue::Integer(i) => Operand::Integer(i),
            OwnedValue::Float(f) => Operand::Float(f),
            OwnedValue::Text(text) => match numeric_text::numeric_value(text@) {
                OwnedValue::Float(f) => Operand::Float(f),
                OwnedValue::Integer(i) => Operand::Integer(i),
                _ => Operand::Null,
            },
            OwnedValue::Blob(_) => Operand::Blob,
        }
    }

    /// A text value.
    pub fn build_text(value: &str) -> (result: OwnedValue)
        ensures
            result matches OwnedValue::Text(text) && text@ == value@,
    {
        OwnedValue::Text(Text::from_str(value))
    }

    /// What an arithmetic operation sees of the value.
    pub fn operand(&self) -> (result: Operand)
        ensures
            result == self.operand_spec(),
    {
        match self {
            OwnedValue::Null => Operand::Null,
            OwnedValue::Integer(i) => Operand::Integer(*i),
            OwnedValue::Float(f) => Operand::Float(*f),
            OwnedValue::Text(text) => match cast_text_to_numeric(text.as_str()) {
                OwnedValue::Float(f) => Operand::Float(f),
                OwnedValue::Integer(i) => Operand::Integer(i),
                _ => Operand::Null,
            },
            OwnedValue::Blob(_) => Operand::Blob,
        }
    }
}

} // verus!
