//! The value type of the chart's value axis and its arithmetic.

pub use crate::axis::RangedDataPoint;
pub use crate::range::get_data_range;

use crate::fixed_point::{
    checked_add_bits, checked_div_int_bits, checked_mul_bits, checked_sub_bits,
    checked_whole_part, div_toward_zero, fits_i64, parse_bits, parsed_fixed_bits, unit,
};
use crate::text::{
    all_digits, chars_of, decimal_string, decimal_text, decimal_value, digits_value,
    fraction_text, lemma_decimal_round_trip, only_digits, push_char, push_decimal,
    push_fraction, same_text,
};
use vstd::prelude::*;
use vstd::std_specs::cmp::PartialEqSpecImpl;
use vstd::std_specs::convert::FromSpecImpl;

verus! {

/// A value on the chart's value axis.
#[derive(Clone, Copy, Debug)]
pub enum DataPoint {
    /// Exact zero. It combines with either of the other kinds.
    Zero,
    /// A signed 32.32 fixed-point measurement, held as its raw bits: the value
    /// times 2^32.
    Float(i64),
    /// A non-negative count.
    Integer(u64),
}

/// Why a text is no data point.
#[derive(Clone, Copy, Debug, PartialEq, Eq, Structural)]
pub enum DataParsingError {
    /// The text is neither a whole number nor a fixed-point decimal.
    CannotParse,
}

impl DataParsingError {
    /// The message for the user.
    pub open spec fn message_spec(self) -> Seq<char> {
        "The provided string failed to parse as a data point!"@
    }

    /// The message for the user.
    pub fn message(&self) -> (text: String)
        ensures
            text@ == self.message_spec(),
    {
        "The provided string failed to parse as a data point!".to_owned()
    }
}

/// The kind of performance indicator that a file of analytics data holds.
#[derive(Clone, Copy, Debug, PartialEq, Eq, Structural)]
pub enum KpiType {
    DailyActiveUsers,
    MonthlyActiveUsers,
    Visits,
    TotalPlayTimeHours,
    DailyRevenue,
    PayingUsers,
}

/// Why a text names no kind of indicator.
#[derive(Clone, Copy, Debug, PartialEq, Eq, Structural)]
pub enum KpiParseError {
    /// No indicator is written so.
    VariantNotFound,
}

impl KpiType {
    /// The name of the indicator as analytics files and chart titles write it.
    pub open spec fn label_spec(self) -> Seq<char> {
        match self {
            KpiType::DailyActiveUsers => "Daily Active Users"@,
            KpiType::MonthlyActiveUsers => "Monthly Active Users"@,
            KpiType::Visits => "Sessions"@,
            KpiType::TotalPlayTimeHours => "Playtime"@,
            KpiType::DailyRevenue => "Daily Revenue"@,
            KpiType::PayingUsers => "Paying Users"@,
        }
    }

    /// The indicator that a text names, letter for letter.
    pub open spec fn named_by(text: Seq<char>) -> Option<KpiType> {
        if text == "Daily Active Users"@ {
            Some(KpiType::DailyActiveUsers)
        } else if text == "Monthly Active Users"@ {
            Some(KpiType::MonthlyActiveUsers)
        } else if text == "Sessions"@ {
            Some(KpiType::Visits)
        } else if text == "Playtime"@ {
            Some(KpiType::TotalPlayTimeHours)
        } else if text == "Daily Revenue"@ {
            Some(KpiType::DailyRevenue)
        } else if text == "Paying Users"@ {
            Some(KpiType::PayingUsers)
        } else {
            None
        }
    }

    /// The name of the indicator.
    pub fn to_string(&self) -> (text: String)
        ensures
            text@ == self.label_spec(),
    {
        match self {
            KpiType::DailyActiveUsers => "Daily Active Users".to_owned(),
            KpiType::MonthlyActiveUsers => "Monthly Active Users".to_owned(),
            KpiType::Visits => "Sessions".to_owned(),
            KpiType::TotalPlayTimeHours => "Playtime".to_owned(),
            KpiType::DailyRevenue => "Daily Revenue".to_owned(),
            KpiType::PayingUsers => "Paying Users".to_owned(),
        }
    }

    /// The indicator that a text names.
    pub fn from_str(text: &str) -> (r: Result<KpiType, KpiParseError>)
        ensures
            r == match KpiType::named_by(text@) {
                Some(kind) => Ok::<KpiType, KpiParseError>(kind),
                None => Err::<KpiType, KpiParseError>(KpiParseError::VariantNotFound),
            },
    {
        if same_text(text, "Daily Active Users") {
            Ok(KpiType::DailyActiveUsers)
        } else if same_text(text, "Monthly Active Users") {
            Ok(KpiType::MonthlyActiveUsers)
        } else if same_text(text, "Sessions") {
            Ok(KpiType::Visits)
        } else if same_text(text, "Playtime") {
            Ok(KpiType::TotalPlayTimeHours)
        } else if same_text(text, "Daily Revenue") {
            Ok(KpiType::DailyRevenue)
        } else if same_text(text, "Paying Users") {
            Ok(KpiType::PayingUsers)
        } else {
            Err(KpiParseError::VariantNotFound)
        }
    }
}

/// The name of every indicator reads back as that indicator.
pub proof fn lemma_kpi_name_reads_back(kind: KpiType)
    ensures
        KpiType::named_by(kind.label_spec()) == Some(kind),
{
    reveal_strlit("Daily Active Users");
    reveal_strlit("Monthly Active Users");
    reveal_strlit("Sessions");
    reveal_strlit("Playtime");
    reveal_strlit("Daily Revenue");
    reveal_strlit("Paying Users");
    assert("Daily Active Users"@.len() == 18);
    assert("Monthly Active Users"@.len() == 20);
    assert("Sessions"@.len() == 8);
    assert("Playtime"@.len() == 8);
    assert("Daily Revenue"@.len() == 13);
    assert("Paying Users"@.len() == 12);
    assert("Sessions"@[0] == 'S');
    assert("Playtime"@[0] == 'P');
}

/// Why an arithmetic operation on data points gave no result.
#[derive(Clone, Copy, Debug, PartialEq, Eq, Structural)]
pub enum ArithmeticError {
    /// A count was combined with a fixed-point measurement.
    MismatchedKinds,
    /// The exact result lies outside the range of its kind.
    Overflow,
    /// A value other than `Zero` was divided by zero.
    DivisionByZero,
}

impl DataPoint {
    /// The value times 2^32: the common scale on which all kinds are compared.
    pub open spec fn bits(self) -> int {
        match self {
            DataPoint::Zero => 0,
            DataPoint::Float(b) => b as int,
            DataPoint::Integer(n) => n as int * unit(),
        }
    }

    /// The value in the unit of its own kind: raw bits for a measurement, the
    /// count itself for a count.
    pub open spec fn raw(self) -> int {
        match self {
            DataPoint::Zero => 0,
            DataPoint::Float(b) => b as int,
            DataPoint::Integer(n) => n as int,
        }
    }

    /// Whether two values may meet in one arithmetic operation: a count never
    /// meets a measurement.
    pub open spec fn compatible(self, other: DataPoint) -> bool {
        !(self is Float && other is Integer) && !(self is Integer && other is Float)
    }

    /// The sum of two values of one kind is exact; `Zero` is neutral on
    /// either side.
    pub open spec fn add_spec(self, rhs: DataPoint) -> Result<DataPoint, ArithmeticError> {
        match (self, rhs) {
            (DataPoint::Zero, _) => Ok(rhs),
            (_, DataPoint::Zero) => Ok(self),
            (DataPoint::Float(a), DataPoint::Float(b)) => if fits_i64(a + b) {
                Ok(DataPoint::Float((a + b) as i64))
            } else {
                Err(ArithmeticError::Overflow)
            },
            (DataPoint::Integer(a), DataPoint::Integer(b)) => if a + b <= u64::MAX {
                Ok(DataPoint::Integer((a + b) as u64))
            } else {
                Err(ArithmeticError::Overflow)
            },
            _ => Err(ArithmeticError::MismatchedKinds),
        }
    }

    /// Subtraction treats `Zero` as neutral on either side, so `Zero - b` is `b`.
    pub open spec fn sub_spec(self, rhs: DataPoint) -> Result<DataPoint, ArithmeticError> {
        match (self, rhs) {
            (DataPoint::Zero, _) => Ok(rhs),
            (_, DataPoint::Zero) => Ok(self),
            (DataPoint::Float(a), DataPoint::Float(b)) => if fits_i64(a - b) {
                Ok(DataPoint::Float((a - b) as i64))
            } else {
                Err(ArithmeticError::Overflow)
            },
            (DataPoint::Integer(a), DataPoint::Integer(b)) => if a >= b {
                Ok(DataPoint::Integer((a - b) as u64))
            } else {
                Err(ArithmeticError::Overflow)
            },
            _ => Err(ArithmeticError::MismatchedKinds),
        }
    }

    /// The product of two measurements is rounded down to a multiple of 2^-32.
    pub open spec fn mul_spec(self, rhs: DataPoint) -> Result<DataPoint, ArithmeticError> {
        match (self, rhs) {
            (DataPoint::Zero, _) => Ok(DataPoint::Zero),
            (_, DataPoint::Zero) => Ok(DataPoint::Zero),
            (DataPoint::Float(a), DataPoint::Float(b)) => if fits_i64((a * b) / unit()) {
                Ok(DataPoint::Float(((a * b) / unit()) as i64))
            } else {
                Err(ArithmeticError::Overflow)
            },
            (DataPoint::Integer(a), DataPoint::Integer(b)) => if a * b <= u64::MAX {
                Ok(DataPoint::Integer((a * b) as u64))
            } else {
                Err(ArithmeticError::Overflow)
            },
            _ => Err(ArithmeticError::MismatchedKinds),
        }
    }

    /// Division by a whole number rounds toward zero in the value's own unit.
    pub open spec fn div_spec(self, rhs: u32) -> Result<DataPoint, ArithmeticError> {
        match self {
            DataPoint::Zero => Ok(DataPoint::Zero),
            DataPoint::Float(a) => if rhs == 0 {
                Err(ArithmeticError::DivisionByZero)
            } else {
                Ok(DataPoint::Float(div_toward_zero(a as int, rhs as int) as i64))
            },
            DataPoint::Integer(a) => if rhs == 0 {
                Err(ArithmeticError::DivisionByZero)
            } else {
                Ok(DataPoint::Integer((a as int / rhs as int) as u64))
            },
        }
    }

    /// The whole part of the value, rounded down; none for a negative value.
    pub open spec fn whole_part(self) -> Option<u64> {
        match self {
            DataPoint::Zero => Some(0u64),
            DataPoint::Float(b) => if b >= 0 {
                Some((b as int / unit()) as u64)
            } else {
                None
            },
            DataPoint::Integer(n) => Some(n),
        }
    }

    /// The smaller of two values by size; `self` where they are equal in size.
    pub open spec fn min_spec(self, other: DataPoint) -> DataPoint {
        if other.bits() < self.bits() {
            other
        } else {
            self
        }
    }

    /// What a text means as a data point, given what the fixed-point reader
    /// makes of it: "0" is exact zero; any other run of digits is a count,
    /// if it fits; every other text is a measurement where the reader
    /// accepts it.
    pub open spec fn parse_spec(text: Seq<char>, fixed: Option<i64>) -> Result<
        DataPoint,
        DataParsingError,
    > {
        if text == seq!['0'] {
            Ok(DataPoint::Zero)
        } else if all_digits(text) {
            if text.len() > 0 && digits_value(text) <= u64::MAX {
                Ok(DataPoint::Integer(digits_value(text) as u64))
            } else {
                Err(DataParsingError::CannotParse)
            }
        } else {
            match fixed {
                Some(bits) => Ok(DataPoint::Float(bits)),
                None => Err(DataParsingError::CannotParse),
            }
        }
    }

    /// Reads a data point from a text and from what the fixed-point reader
    /// made of the same text.
    pub fn from_parts(text: &str, fixed: Option<i64>) -> (r: Result<DataPoint, DataParsingError>)
        ensures
            r == DataPoint::parse_spec(text@, fixed),
    {
        let chars = chars_of(text);
        if chars.len() == 1 && chars[0] == '0' {
            assert(text@ =~= seq!['0']);
            return Ok(DataPoint::Zero);
        }
        if only_digits(&chars) {
            return match decimal_value(&chars) {
                Some(n) => Ok(DataPoint::Integer(n)),
                None => Err(DataParsingError::CannotParse),
            };
        }
        match fixed {
            Some(bits) => Ok(DataPoint::Float(bits)),
            None => Err(DataParsingError::CannotParse),
        }
    }

    /// Reads a data point from a text.
    pub fn from_str(text: &str) -> (r: Result<DataPoint, DataParsingError>)
        ensures
            r == DataPoint::parse_spec(text@, parsed_fixed_bits(text@)),
    {
        let fixed = match parse_bits(text) {
            Ok(bits) => Some(bits),
            Err(_) => None,
        };
        DataPoint::from_parts(text, fixed)
    }

    /// The size of a measurement in hundred-thousandths, without its sign,
    /// rounded to the nearest, halves upward.
    pub open spec fn rounded_decimals(bits: int) -> nat {
        let size: int = if bits < 0 {
            -bits
        } else {
            bits
        };
        ((2 * (size * 100_000) + unit()) / (2 * unit())) as nat
    }

    /// The text of a measurement: the whole part, a point, and one to five
    /// decimals; a minus sign in front of a negative value that does not
    /// round to zero.
    pub open spec fn fixed_text(bits: int) -> Seq<char> {
        let n = DataPoint::rounded_decimals(bits);
        let body = decimal_text(n / 100_000) + seq!['.'] + fraction_text(n % 100_000, 5);
        if bits < 0 && n > 0 {
            seq!['-'] + body
        } else {
            body
        }
    }

    /// The text of an axis label: a count and exact zero as a whole number,
    /// a measurement with one to five decimals.
    pub open spec fn label_spec(self) -> Seq<char> {
        match self {
            DataPoint::Zero => seq!['0'],
            DataPoint::Integer(n) => decimal_text(n as nat),
            DataPoint::Float(bits) => DataPoint::fixed_text(bits as int),
        }
    }

    /// The text of an axis label.
    pub fn label(&self) -> (text: String)
        ensures
            text@ == self.label_spec(),
    {
        match self {
            DataPoint::Zero => {
                proof {
                    lemma_decimal_round_trip(0);
                }
                decimal_string(0)
            },
            DataPoint::Integer(n) => decimal_string(*n),
            DataPoint::Float(bits) => {
                let size: u128 = if *bits < 0 {
                    (-(*bits as i128)) as u128
                } else {
                    *bits as u128
                };
                let n: u128 = (2 * (size * 100_000) + 0x1_0000_0000) / 0x2_0000_0000;
                let whole: u64 = (n / 100_000) as u64;
                let part: u32 = (n % 100_000) as u32;
                let mut text = String::new();
                if *bits < 0 && n > 0 {
                    push_char(&mut text, '-');
                }
                let ghost sign = text@;
                push_decimal(&mut text, whole);
                push_char(&mut text, '.');
                push_fraction(&mut text, part, 5);
                proof {
                    let body = decimal_text((n / 100_000) as nat) + seq!['.'] + fraction_text(
                        (n % 100_000) as nat,
                        5,
                    );
                    assert(text@ =~= sign + body);
                    assert(Seq::<char>::empty() + body =~= body);
                }
                text
            },
        }
    }

    /// The measurement with the given raw bits; exact zero for no bits at all.
    pub open spec fn from_bits_spec(bits: i64) -> DataPoint {
        if bits == 0 {
            DataPoint::Zero
        } else {
            DataPoint::Float(bits)
        }
    }

    /// Whether the value lies in the range of a 32.32 fixed-point number.
    pub open spec fn fits_fixed(self) -> bool {
        fits_i64(self.bits())
    }

    /// The measurement with the given raw bits; exact zero for no bits at all.
    pub fn from_fixed_bits(bits: i64) -> (r: DataPoint)
        ensures
            r == DataPoint::from_bits_spec(bits),
            r.bits() == bits,
    {
        if bits == 0 {
            DataPoint::Zero
        } else {
            DataPoint::Float(bits)
        }
    }

    /// The raw bits of the value as a fixed-point number, where it has any.
    pub fn to_fixed_bits(self) -> (r: Option<i64>)
        ensures
            r is Some <==> self.fits_fixed(),
            r is Some ==> r->Some_0 == self.bits(),
    {
        match self {
            DataPoint::Zero => Some(0),
            DataPoint::Float(b) => Some(b),
            DataPoint::Integer(n) => if n < 0x8000_0000 {
                Some((n * 0x1_0000_0000) as i64)
            } else {
                None
            },
        }
    }

    /// The value times 2^32.
    pub fn scaled(self) -> (r: i128)
        ensures
            r == self.bits(),
    {
        match self {
            DataPoint::Zero => 0,
            DataPoint::Float(b) => b as i128,
            DataPoint::Integer(n) => (n as i128) * 0x1_0000_0000,
        }
    }

    /// Adds two values of one kind; `Zero` is neutral on either side.
    pub fn add(self, rhs: DataPoint) -> (r: Result<DataPoint, ArithmeticError>)
        ensures
            r == self.add_spec(rhs),
    {
        match (self, rhs) {
            (DataPoint::Zero, _) => Ok(rhs),
            (_, DataPoint::Zero) => Ok(self),
            (DataPoint::Float(a), DataPoint::Float(b)) => match checked_add_bits(a, b) {
                Some(c) => Ok(DataPoint::Float(c)),
                None => Err(ArithmeticError::Overflow),
            },
            (DataPoint::Integer(a), DataPoint::Integer(b)) => match a.checked_add(b) {
                Some(c) => Ok(DataPoint::Integer(c)),
                None => Err(ArithmeticError::Overflow),
            },
            _ => Err(ArithmeticError::MismatchedKinds),
        }
    }

    /// Subtracts two values of one kind; `Zero` is neutral on either side.
    pub fn sub(self, rhs: DataPoint) -> (r: Result<DataPoint, ArithmeticError>)
        ensures
            r == self.sub_spec(rhs),
    {
        match (self, rhs) {
            (DataPoint::Zero, _) => Ok(rhs),
            (_, DataPoint::Zero) => Ok(self),
            (DataPoint::Float(a), DataPoint::Float(b)) => match checked_sub_bits(a, b) {
                Some(c) => Ok(DataPoint::Float(c)),
                None => Err(ArithmeticError::Overflow),
            },
            (DataPoint::Integer(a), DataPoint::Integer(b)) => match a.checked_sub(b) {
                Some(c) => Ok(DataPoint::Integer(c)),
                None => Err(ArithmeticError::Overflow),
            },
            _ => Err(ArithmeticError::MismatchedKinds),
        }
    }

    /// Multiplies two values of one kind; `Zero` on either side gives `Zero`.
    pub fn mul(self, rhs: DataPoint) -> (r: Result<DataPoint, ArithmeticError>)
        ensures
            r == self.mul_spec(rhs),
    {
        match (self, rhs) {
            (DataPoint::Zero, _) => Ok(DataPoint::Zero),
            (_, DataPoint::Zero) => Ok(DataPoint::Zero),
            (DataPoint::Float(a), DataPoint::Float(b)) => match checked_mul_bits(a, b) {
                Some(c) => Ok(DataPoint::Float(c)),
                None => Err(ArithmeticError::Overflow),
            },
            (DataPoint::Integer(a), DataPoint::Integer(b)) => match a.checked_mul(b) {
                Some(c) => Ok(DataPoint::Integer(c)),
                None => Err(ArithmeticError::Overflow),
            },
            _ => Err(ArithmeticError::MismatchedKinds),
        }
    }

    /// Divides a value by a whole number.
    pub fn div(self, rhs: u32) -> (r: Result<DataPoint, ArithmeticError>)
        ensures
            r == self.div_spec(rhs),
    {
        match self {
            DataPoint::Zero => Ok(DataPoint::Zero),
            DataPoint::Float(a) => match checked_div_int_bits(a, rhs) {
                Some(c) => Ok(DataPoint::Float(c)),
                None => Err(ArithmeticError::DivisionByZero),
            },
            DataPoint::Integer(a) => if rhs == 0 {
                Err(ArithmeticError::DivisionByZero)
            } else {
                Ok(DataPoint::Integer(a / (rhs as u64)))
            },
        }
    }

    /// The whole part of the value for an axis label.
    pub fn to_u64(self) -> (r: Option<u64>)
        ensures
            r == self.whole_part(),
    {
        match self {
            DataPoint::Zero => Some(0),
            DataPoint::Float(b) => checked_whole_part(b),
            DataPoint::Integer(n) => Some(n),
        }
    }

    /// The smaller of two values.
    pub fn min(self, other: DataPoint) -> (r: DataPoint)
        ensures
            r == self.min_spec(other),
    {
        if other < self {
            other
        } else {
            self
        }
    }
}

/// Two data points are equal where their values are: `Zero` equals a zero of
/// either other kind.
impl PartialEq for DataPoint {
    fn eq(&self, other: &DataPoint) -> (r: bool) {
        self.scaled() == other.scaled()
    }
}

impl Eq for DataPoint {

}

impl PartialEqSpecImpl for DataPoint {
    open spec fn obeys_eq_spec() -> bool {
        true
    }

    open spec fn eq_spec(&self, other: &DataPoint) -> bool {
        self.bits() == other.bits()
    }
}

impl From<u64> for DataPoint {
    fn from(value: u64) -> (r: DataPoint) {
        DataPoint::Integer(value)
    }
}

impl FromSpecImpl<u64> for DataPoint {
    open spec fn obeys_from_spec() -> bool {
        true
    }

    open spec fn from_spec(value: u64) -> DataPoint {
        DataPoint::Integer(value)
    }
}

/// `Zero` is neutral for addition on either side, and `Zero` times anything is
/// `Zero`, whatever the kind of the other value.
pub proof fn lemma_zero_laws(a: DataPoint)
    ensures
        a.add_spec(DataPoint::Zero) == Ok::<DataPoint, ArithmeticError>(a),
        DataPoint::Zero.add_spec(a) == Ok::<DataPoint, ArithmeticError>(a),
        a.mul_spec(DataPoint::Zero) == Ok::<DataPoint, ArithmeticError>(DataPoint::Zero),
        DataPoint::Zero.mul_spec(a) == Ok::<DataPoint, ArithmeticError>(DataPoint::Zero),
        a.sub_spec(DataPoint::Zero) == Ok::<DataPoint, ArithmeticError>(a),
{
}

/// Where addition or subtraction of two values other than `Zero` succeeds,
/// it is exact: the result's size is the sum or the difference of the sizes.
pub proof fn lemma_sum_is_exact(a: DataPoint, b: DataPoint)
    requires
        !(a is Zero),
        !(b is Zero),
    ensures
        a.add_spec(b) is Ok ==> a.add_spec(b)->Ok_0.bits() == a.bits() + b.bits(),
        a.sub_spec(b) is Ok ==> a.sub_spec(b)->Ok_0.bits() == a.bits() - b.bits(),
{
}

/// A count and a measurement are never combined, and nothing else is
/// refused for its kind.
pub proof fn lemma_mismatch(a: DataPoint, b: DataPoint)
    ensures
        !a.compatible(b) <==> a.add_spec(b) == Err::<DataPoint, ArithmeticError>(
            ArithmeticError::MismatchedKinds,
        ),
        !a.compatible(b) <==> a.sub_spec(b) == Err::<DataPoint, ArithmeticError>(
            ArithmeticError::MismatchedKinds,
        ),
        !a.compatible(b) <==> a.mul_spec(b) == Err::<DataPoint, ArithmeticError>(
            ArithmeticError::MismatchedKinds,
        ),
{
}

/// The text "0" reads as exact zero, and the label of a count reads back as
/// a data point of the same size: the count itself, or exact zero for a
/// count of nothing. What the fixed-point reader makes of the text plays no part.
pub proof fn lemma_label_reads_back(n: u64, fixed: Option<i64>)
    ensures
        DataPoint::parse_spec(seq!['0'], fixed) == Ok::<DataPoint, DataParsingError>(
            DataPoint::Zero,
        ),
        DataPoint::parse_spec(DataPoint::Integer(n).label_spec(), fixed) is Ok,
        DataPoint::parse_spec(DataPoint::Integer(n).label_spec(), fixed)->Ok_0.bits()
            == DataPoint::Integer(n).bits(),
        n > 0 ==> DataPoint::parse_spec(DataPoint::Integer(n).label_spec(), fixed) == Ok::<
            DataPoint,
            DataParsingError,
        >(DataPoint::Integer(n)),
{
    lemma_decimal_round_trip(n as nat);
}

} // verus!
