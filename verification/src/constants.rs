//! The characters of the format: one token for each kind of value and each
//! boundary, all of them outside the digits, and the numbers that the rules
//! of writing go by.
use vstd::prelude::*;

verus! {

/// The character that escapes itself and a string's delimiter.
pub const ESCAPE_CHARACTER: char = '\\';

/// Code points strictly between these two bounds are small-integer tokens.
pub const INTEGER_SMALL_TOKEN_EXCLUSIVE_BOUND_LOWER: u32 = 191;

pub const INTEGER_SMALL_TOKEN_EXCLUSIVE_BOUND_UPPER: u32 = 211;

/// The code point of the small-integer token that stands for zero.
pub const INTEGER_SMALL_TOKEN_OFFSET: i64 = 201;

/// Integers strictly between these two bounds are written as one token.
pub const INTEGER_SMALL_EXCLUSIVE_BOUND_LOWER: i64 = -10;

pub const INTEGER_SMALL_EXCLUSIVE_BOUND_UPPER: i64 = 10;

/// A number ends before the first character whose code point exceeds this.
pub const DELIMITING_TOKENS_THRESHOLD: u32 = 122;

/// An integer that is registered.
pub const INTEGER_TOKEN: char = '¢';

/// An integer that is not registered.
pub const UNREFERENCED_INTEGER_TOKEN: char = '¤';

/// The index of a registered integer.
pub const REF_INTEGER_TOKEN: char = 'º';

/// The delimiter of a string that is registered.
pub const STRING_TOKEN: char = '¨';

/// The delimiter of a string that is not registered.
pub const UNREFERENCED_STRING_TOKEN: char = '´';

/// The index of a registered string.
pub const REF_STRING_TOKEN: char = 'ß';

/// A date in milliseconds that is registered.
pub const DATE_TOKEN: char = 'ø';

/// The index of a registered date.
pub const REF_DATE_TOKEN: char = '×';

/// A date in milliseconds that is not registered.
pub const UNREFERENCED_DATE_TOKEN: char = '¿';

/// A low-precision date that is registered.
pub const LP_DATE_TOKEN: char = '±';

/// The index of a registered low-precision date.
pub const REF_LP_DATE_TOKEN: char = 'ü';

/// A low-precision date that is not registered.
pub const UNREFERENCED_LP_DATE_TOKEN: char = 'ÿ';

/// A date whose milliseconds are a multiple of this is written in units of it.
pub const DATE_LOW_PRECISION: i64 = 100;

/// A float that is registered.
pub const FLOAT_TOKEN: char = '£';

/// A float that is not registered.
pub const UNREFERENCED_FLOAT_TOKEN: char = '¥';

/// The index of a registered float.
pub const REF_FLOAT_TOKEN: char = 'Ý';

/// Stands before the digits of a fraction.
pub const FLOAT_FULL_PRECISION_DELIMITER: char = ',';

/// Stands before a fraction in thousandths.
pub const FLOAT_REDUCED_PRECISION_DELIMITER: char = '.';

/// Opens an array.
pub const ARRAY_START_TOKEN: char = '|';

/// Closes an array.
pub const ARRAY_END_TOKEN: char = '÷';

/// The element before, once more.
pub const ARRAY_REPEAT_TOKEN: char = 'þ';

/// The element before, as often again as the integer says that follows.
pub const ARRAY_REPEAT_MANY_TOKEN: char = '^';

/// From this many repeats on, a run is closed by one counted token.
pub const ARRAY_REPEAT_COUNT_THRESHOLD: usize = 4;

/// Opens an object.
pub const OBJECT_START_TOKEN: char = '{';

/// Closes an object.
pub const OBJECT_END_TOKEN: char = '}';

/// Null, and what is undefined.
pub const NULL_TOKEN: char = '§';

/// True.
pub const BOOLEAN_TRUE_TOKEN: char = '»';

/// False.
pub const BOOLEAN_FALSE_TOKEN: char = '«';

} // verus!
