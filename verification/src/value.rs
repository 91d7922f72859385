//! The values of the language and their types, and the casts between them.
use crate::ieee::{
    double_encodes, double_from, double_of, lemma_double_exists, lemma_single_exists,
    single_encodes, single_from, single_of,
};
use vstd::prelude::*;

verus! {

/// The primitive types, by name.
#[derive(Debug, Clone, Copy, PartialEq, Eq, Structural)]
pub enum SupportedTypeTag {
    Bool,
    I8,
    U8,
    I16,
    U16,
    I32,
    U32,
    I64,
    U64,
    /// The IEEE 754 numbers of 32 bits.
    F32,
    /// The IEEE 754 numbers of 64 bits.
    F64,
    String,
    Impulse,
}

impl SupportedTypeTag {
    /// Whether the type is one of the eight integer types.
    pub open spec fn is_integer(self) -> bool {
        match self {
            SupportedTypeTag::I8
            | SupportedTypeTag::U8
            | SupportedTypeTag::I16
            | SupportedTypeTag::U16
            | SupportedTypeTag::I32
            | SupportedTypeTag::U32
            | SupportedTypeTag::I64
            | SupportedTypeTag::U64 => true,
            _ => false,
        }
    }

    /// Whether the type is a type of numbers: an integer type or one of the
    /// two floating-point types.
    pub open spec fn is_numeric(self) -> bool {
        self.is_integer() || self == SupportedTypeTag::F32 || self == SupportedTypeTag::F64
    }

    /// The least integer of which every integer up to [`Self::greatest`] is
    /// a value of the type.
    pub open spec fn least(self) -> int {
        match self {
            SupportedTypeTag::I8 => i8::MIN as int,
            SupportedTypeTag::U8 => u8::MIN as int,
            SupportedTypeTag::I16 => i16::MIN as int,
            SupportedTypeTag::U16 => u16::MIN as int,
            SupportedTypeTag::I32 => i32::MIN as int,
            SupportedTypeTag::U32 => u32::MIN as int,
            SupportedTypeTag::I64 => i64::MIN as int,
            SupportedTypeTag::U64 => u64::MIN as int,
            SupportedTypeTag::F32 => -0xFF_FFFF,
            SupportedTypeTag::F64 => -0x1F_FFFF_FFFF_FFFF,
            _ => 0,
        }
    }

    /// The greatest integer down to which, from [`Self::least`] on, every
    /// integer is a value of the type.  For a floating-point type this is
    /// the greatest magnitude that the fraction and its leading bit hold.
    pub open spec fn greatest(self) -> int {
        match self {
            SupportedTypeTag::I8 => i8::MAX as int,
            SupportedTypeTag::U8 => u8::MAX as int,
            SupportedTypeTag::I16 => i16::MAX as int,
            SupportedTypeTag::U16 => u16::MAX as int,
            SupportedTypeTag::I32 => i32::MAX as int,
            SupportedTypeTag::U32 => u32::MAX as int,
            SupportedTypeTag::I64 => i64::MAX as int,
            SupportedTypeTag::U64 => u64::MAX as int,
            SupportedTypeTag::F32 => 0xFF_FFFF,
            SupportedTypeTag::F64 => 0x1F_FFFF_FFFF_FFFF,
            _ => -1,
        }
    }
}

/// The casts between different types that are legal: the widening ones, of
/// an integer type to a type that holds each of its values.
pub open spec fn is_widening(from: SupportedTypeTag, to: SupportedTypeTag) -> bool {
    match from {
        SupportedTypeTag::I8 => to == SupportedTypeTag::I16
            || to == SupportedTypeTag::I32
            || to == SupportedTypeTag::I64
            || to == SupportedTypeTag::F32
            || to == SupportedTypeTag::F64,
        SupportedTypeTag::U8 => to == SupportedTypeTag::I16
            || to == SupportedTypeTag::I32
            || to == SupportedTypeTag::I64
            || to == SupportedTypeTag::U16
            || to == SupportedTypeTag::U32
            || to == SupportedTypeTag::U64
            || to == SupportedTypeTag::F32
            || to == SupportedTypeTag::F64,
        SupportedTypeTag::I16 => to == SupportedTypeTag::I32
            || to == SupportedTypeTag::I64
            || to == SupportedTypeTag::F32
            || to == SupportedTypeTag::F64,
        SupportedTypeTag::U16 => to == SupportedTypeTag::I32
            || to == SupportedTypeTag::I64
            || to == SupportedTypeTag::U32
            || to == SupportedTypeTag::U64
            || to == SupportedTypeTag::F32
            || to == SupportedTypeTag::F64,
        SupportedTypeTag::I32 => to == SupportedTypeTag::I64
            || to == SupportedTypeTag::F64,
        SupportedTypeTag::U32 => to == SupportedTypeTag::I64
            || to == SupportedTypeTag::U64
            || to == SupportedTypeTag::F64,
        _ => false,
    }
}

/// Whether a value of type `from` can be cast to type `to`: to its own type
/// always, to another one where that widens.
pub open spec fn cast_allowed(from: SupportedTypeTag, to: SupportedTypeTag) -> bool {
    from == to || is_widening(from, to)
}

/// The legal casts between different types are exactly those of an integer
/// type to a type of numbers that holds every value of it.
pub proof fn lemma_widening_is_lossless(from: SupportedTypeTag, to: SupportedTypeTag)
    ensures
        is_widening(from, to) <==> (from != to && from.is_integer() && to.is_numeric()
            && to.least() <= from.least() && from.greatest() <= to.greatest()),
{
}

/// A value, with its type.  A floating-point number is held by its bits.
#[derive(Debug, Clone, PartialEq, Eq)]
pub enum SupportedTypeBox {
    Bool(bool),
    I8(i8),
    U8(u8),
    I16(i16),
    U16(u16),
    I32(i32),
    U32(u32),
    I64(i64),
    U64(u64),
    /// The bits of an IEEE 754 number of 32 bits.
    F32 { bits: u32 },
    /// The bits of an IEEE 754 number of 64 bits.
    F64 { bits: u64 },
    String(String),
}

/// What a [`SupportedTypeBox`] is, as a mathematical value.
pub enum ValueView {
    Bool(bool),
    I8(i8),
    U8(u8),
    I16(i16),
    U16(u16),
    I32(i32),
    U32(u32),
    I64(i64),
    U64(u64),
    F32 { bits: u32 },
    F64 { bits: u64 },
    String(Seq<char>),
}

impl View for SupportedTypeBox {
    type V = ValueView;

    open spec fn view(&self) -> ValueView {
        match self {
            SupportedTypeBox::Bool(value) => ValueView::Bool(*value),
            SupportedTypeBox::I8(value) => ValueView::I8(*value),
            SupportedTypeBox::U8(value) => ValueView::U8(*value),
            SupportedTypeBox::I16(value) => ValueView::I16(*value),
            SupportedTypeBox::U16(value) => ValueView::U16(*value),
            SupportedTypeBox::I32(value) => ValueView::I32(*value),
            SupportedTypeBox::U32(value) => ValueView::U32(*value),
            SupportedTypeBox::I64(value) => ValueView::I64(*value),
            SupportedTypeBox::U64(value) => ValueView::U64(*value),
            SupportedTypeBox::F32 { bits } => ValueView::F32 { bits: *bits },
            SupportedTypeBox::F64 { bits } => ValueView::F64 { bits: *bits },
            SupportedTypeBox::String(text) => ValueView::String(text@),
        }
    }
}

impl ValueView {
    /// The type of the value.
    pub open spec fn tag(self) -> SupportedTypeTag {
        match self {
            ValueView::Bool(_) => SupportedTypeTag::Bool,
            ValueView::I8(_) => SupportedTypeTag::I8,
            ValueView::U8(_) => SupportedTypeTag::U8,
            ValueView::I16(_) => SupportedTypeTag::I16,
            ValueView::U16(_) => SupportedTypeTag::U16,
            ValueView::I32(_) => SupportedTypeTag::I32,
            ValueView::U32(_) => SupportedTypeTag::U32,
            ValueView::I64(_) => SupportedTypeTag::I64,
            ValueView::U64(_) => SupportedTypeTag::U64,
            ValueView::F32 { .. } => SupportedTypeTag::F32,
            ValueView::F64 { .. } => SupportedTypeTag::F64,
            ValueView::String(_) => SupportedTypeTag::String,
        }
    }

    /// The integer that a value of an integer type is.
    pub open spec fn integer(self) -> int
        recommends
            self.tag().is_integer(),
    {
        match self {
            ValueView::I8(value) => value as int,
            ValueView::U8(value) => value as int,
            ValueView::I16(value) => value as int,
            ValueView::U16(value) => value as int,
            ValueView::I32(value) => value as int,
            ValueView::U32(value) => value as int,
            ValueView::I64(value) => value as int,
            ValueView::U64(value) => value as int,
            _ => 0,
        }
    }

    /// Whether the value is the integer `n`: as a value of an integer type,
    /// or as a floating-point number.
    pub open spec fn is_number(self, n: int) -> bool {
        match self {
            ValueView::F32 { bits } => single_encodes(bits, n),
            ValueView::F64 { bits } => double_encodes(bits, n),
            _ => self.tag().is_integer() && self.integer() == n,
        }
    }
}

/// The value of the type of numbers `target` that is the integer `n`, which
/// the type holds.
pub open spec fn number(n: int, target: SupportedTypeTag) -> ValueView
    recommends
        target.is_numeric(),
        target.least() <= n <= target.greatest(),
{
    match target {
        SupportedTypeTag::I8 => ValueView::I8(n as i8),
        SupportedTypeTag::U8 => ValueView::U8(n as u8),
        SupportedTypeTag::I16 => ValueView::I16(n as i16),
        SupportedTypeTag::U16 => ValueView::U16(n as u16),
        SupportedTypeTag::I32 => ValueView::I32(n as i32),
        SupportedTypeTag::U32 => ValueView::U32(n as u32),
        SupportedTypeTag::I64 => ValueView::I64(n as i64),
        SupportedTypeTag::U64 => ValueView::U64(n as u64),
        SupportedTypeTag::F32 => ValueView::F32 { bits: single_of(n) },
        SupportedTypeTag::F64 => ValueView::F64 { bits: double_of(n) },
        _ => ValueView::Bool(false),
    }
}

/// What the cast of `value` to `target` gives, where the cast is legal: the
/// value itself where it has the type already, else the same number in the
/// wider type.
pub open spec fn cast_result(value: ValueView, target: SupportedTypeTag) -> Option<ValueView> {
    if value.tag() == target {
        Some(value)
    } else if is_widening(value.tag(), target) {
        Some(number(value.integer(), target))
    } else {
        None
    }
}

/// A cast to the value's own type is always legal and gives the value
/// itself.
pub proof fn lemma_cast_to_own_type(value: ValueView)
    ensures
        cast_result(value, value.tag()) == Some(value),
{
}

/// A cast to another type that does not hold every value of the value's
/// type is refused: no cast narrows.
pub proof fn lemma_narrowing_is_refused(value: ValueView, target: SupportedTypeTag)
    requires
        value.tag() != target,
        !(target.least() <= value.tag().least() && value.tag().greatest() <= target.greatest()),
    ensures
        cast_result(value, target) is None,
{
    lemma_widening_is_lossless(value.tag(), target);
}

/// A legal cast gives a value of the target type, and a cast of a number
/// gives the same number.
pub proof fn lemma_cast_preserves_number(value: ValueView, target: SupportedTypeTag, n: int)
    requires
        cast_result(value, target) is Some,
    ensures
        cast_result(value, target)->0.tag() == target,
        value.is_number(n) ==> cast_result(value, target)->0.is_number(n),
{
    if value.tag() != target {
        lemma_widening_is_lossless(value.tag(), target);
        let m = value.integer();
        if target == SupportedTypeTag::F32 {
            lemma_single_exists(m);
        }
        if target == SupportedTypeTag::F64 {
            lemma_double_exists(m);
        }
    }
}

impl SupportedTypeBox {
    /// The type of the value.
    pub fn tag(&self) -> (tag: SupportedTypeTag)
        ensures
            tag == self@.tag(),
    {
        match self {
            SupportedTypeBox::Bool(_) => SupportedTypeTag::Bool,
            SupportedTypeBox::I8(_) => SupportedTypeTag::I8,
            SupportedTypeBox::U8(_) => SupportedTypeTag::U8,
            SupportedTypeBox::I16(_) => SupportedTypeTag::I16,
            SupportedTypeBox::U16(_) => SupportedTypeTag::U16,
            SupportedTypeBox::I32(_) => SupportedTypeTag::I32,
            SupportedTypeBox::U32(_) => SupportedTypeTag::U32,
            SupportedTypeBox::I64(_) => SupportedTypeTag::I64,
            SupportedTypeBox::U64(_) => SupportedTypeTag::U64,
            SupportedTypeBox::F32 { .. } => SupportedTypeTag::F32,
            SupportedTypeBox::F64 { .. } => SupportedTypeTag::F64,
            SupportedTypeBox::String(_) => SupportedTypeTag::String,
        }
    }

    /// The text of a string value; of another value none.
    pub fn get_string(&self) -> (text: Option<&String>)
        ensures
            match text {
                Some(found) => self@ == ValueView::String(found@),
                None => self@.tag() != SupportedTypeTag::String,
            },
    {
        match self {
            SupportedTypeBox::String(text) => Some(text),
            _ => None,
        }
    }

    /// The number of a value of type `i32`; of another value none.
    pub fn get_i32(&self) -> (number: Option<i32>)
        ensures
            match number {
                Some(found) => self@ == ValueView::I32(found),
                None => self@.tag() != SupportedTypeTag::I32,
            },
    {
        match self {
            SupportedTypeBox::I32(value) => Some(*value),
            _ => None,
        }
    }

    /// A copy of the value.
    pub fn duplicate(&self) -> (copy: SupportedTypeBox)
        ensures
            copy@ == self@,
    {
        match self {
            SupportedTypeBox::Bool(value) => SupportedTypeBox::Bool(*value),
            SupportedTypeBox::I8(value) => SupportedTypeBox::I8(*value),
            SupportedTypeBox::U8(value) => SupportedTypeBox::U8(*value),
            SupportedTypeBox::I16(value) => SupportedTypeBox::I16(*value),
            SupportedTypeBox::U16(value) => SupportedTypeBox::U16(*value),
            SupportedTypeBox::I32(value) => SupportedTypeBox::I32(*value),
            SupportedTypeBox::U32(value) => SupportedTypeBox::U32(*value),
            SupportedTypeBox::I64(value) => SupportedTypeBox::I64(*value),
            SupportedTypeBox::U64(value) => SupportedTypeBox::U64(*value),
            SupportedTypeBox::F32 { bits } => SupportedTypeBox::F32 { bits: *bits },
            SupportedTypeBox::F64 { bits } => SupportedTypeBox::F64 { bits: *bits },
            SupportedTypeBox::String(text) => SupportedTypeBox::String(text.clone()),
        }
    }

    /// Casts the value to the type `target`.  A value passes through a cast
    /// to its own type unchanged.  Other than that only the widening casts
    /// of integers are legal, and they keep the number; every other cast is
    /// refused, and the value comes back with the refusal.
    pub fn cast(self, target: SupportedTypeTag) -> (outcome: Result<SupportedTypeBox, SupportedTypeBox>)
        ensures
            match outcome {
                Ok(cast) => cast_result(self@, target) == Some(cast@),
                Err(refused) => cast_result(self@, target) is None && refused@ == self@,
            },
    {
        if self.tag() == target {
            return Ok(self);
        }
        match self {
            SupportedTypeBox::I8(value) => match target {
                SupportedTypeTag::I16 => Ok(SupportedTypeBox::I16(value as i16)),
                SupportedTypeTag::I32 => Ok(SupportedTypeBox::I32(value as i32)),
                SupportedTypeTag::I64 => Ok(SupportedTypeBox::I64(value as i64)),
                SupportedTypeTag::F32 => {
                    let bits: u32 = single_from(value as i32);
                    Ok(SupportedTypeBox::F32 { bits })
                },
                SupportedTypeTag::F64 => {
                    let bits: u64 = double_from(value as i64);
                    Ok(SupportedTypeBox::F64 { bits })
                },
                _ => Err(SupportedTypeBox::I8(value)),
            },
            SupportedTypeBox::U8(value) => match target {
                SupportedTypeTag::I16 => Ok(SupportedTypeBox::I16(value as i16)),
                SupportedTypeTag::I32 => Ok(SupportedTypeBox::I32(value as i32)),
                SupportedTypeTag::I64 => Ok(SupportedTypeBox::I64(value as i64)),
                SupportedTypeTag::U16 => Ok(SupportedTypeBox::U16(value as u16)),
                SupportedTypeTag::U32 => Ok(SupportedTypeBox::U32(value as u32)),
                SupportedTypeTag::U64 => Ok(SupportedTypeBox::U64(value as u64)),
                SupportedTypeTag::F32 => {
                    let bits: u32 = single_from(value as i32);
                    Ok(SupportedTypeBox::F32 { bits })
                },
                SupportedTypeTag::F64 => {
                    let bits: u64 = double_from(value as i64);
                    Ok(SupportedTypeBox::F64 { bits })
                },
                _ => Err(SupportedTypeBox::U8(value)),
            },
            SupportedTypeBox::I16(value) => match target {
                SupportedTypeTag::I32 => Ok(SupportedTypeBox::I32(value as i32)),
                SupportedTypeTag::I64 => Ok(SupportedTypeBox::I64(value as i64)),
                SupportedTypeTag::F32 => {
                    let bits: u32 = single_from(value as i32);
                    Ok(SupportedTypeBox::F32 { bits })
                },
                SupportedTypeTag::F64 => {
                    let bits: u64 = double_from(value as i64);
                    Ok(SupportedTypeBox::F64 { bits })
                },
                _ => Err(SupportedTypeBox::I16(value)),
            },
            SupportedTypeBox::U16(value) => match target {
                SupportedTypeTag::I32 => Ok(SupportedTypeBox::I32(value as i32)),
                SupportedTypeTag::I64 => Ok(SupportedTypeBox::I64(value as i64)),
                SupportedTypeTag::U32 => Ok(SupportedTypeBox::U32(value as u32)),
                SupportedTypeTag::U64 => Ok(SupportedTypeBox::U64(value as u64)),
                SupportedTypeTag::F32 => {
                    let bits: u32 = single_from(value as i32);
                    Ok(SupportedTypeBox::F32 { bits })
                },
                SupportedTypeTag::F64 => {
                    let bits: u64 = double_from(value as i64);
                    Ok(SupportedTypeBox::F64 { bits })
                },
                _ => Err(SupportedTypeBox::U16(value)),
            },
            SupportedTypeBox::I32(value) => match target {
                SupportedTypeTag::I64 => Ok(SupportedTypeBox::I64(value as i64)),
                SupportedTypeTag::F64 => {
                    let bits: u64 = double_from(value as i64);
                    Ok(SupportedTypeBox::F64 { bits })
                },
                _ => Err(SupportedTypeBox::I32(value)),
            },
            SupportedTypeBox::U32(value) => match target {
                SupportedTypeTag::I64 => Ok(SupportedTypeBox::I64(value as i64)),
                SupportedTypeTag::U64 => Ok(SupportedTypeBox::U64(value as u64)),
                SupportedTypeTag::F64 => {
                    let bits: u64 = double_from(value as i64);
                    Ok(SupportedTypeBox::F64 { bits })
                },
                _ => Err(SupportedTypeBox::U32(value)),
            },
            other => Err(other),
        }
    }
}

} // verus!
