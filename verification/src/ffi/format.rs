//! The format strings of the C data interface.
use vstd::prelude::*;

use crate::datatypes::{DataType, DataTypeView, IntegerType, IntervalUnit, TimeUnit, UnionMode};
use crate::error::ArrowError;
use crate::text::{chars_are, chars_of, decimal, decimal_int, join, push_decimal, push_decimal_i32};

verus! {

/// Whether `data_type` has a format string.
pub open spec fn can_format(data_type: DataTypeView) -> bool
    decreases data_type,
{
    match data_type {
        DataTypeView::Time32(unit) => unit == TimeUnit::Second || unit == TimeUnit::Millisecond,
        DataTypeView::Time64(unit) => unit == TimeUnit::Microsecond || unit
            == TimeUnit::Nanosecond,
        DataTypeView::Interval(unit) => unit != IntervalUnit::MonthDayNano,
        DataTypeView::Union(fields, ids, _) => match ids {
            Some(ids) => ids.len() > 0,
            None => fields.len() > 0,
        },
        DataTypeView::Extension(_, inner, _) => can_format(*inner),
        _ => true,
    }
}

/// The letter of a time unit.
pub open spec fn unit_letter(unit: TimeUnit) -> char {
    match unit {
        TimeUnit::Second => 's',
        TimeUnit::Millisecond => 'm',
        TimeUnit::Microsecond => 'u',
        TimeUnit::Nanosecond => 'n',
    }
}

/// The format string of an integer type.
pub open spec fn integer_format(index: IntegerType) -> Seq<char> {
    match index {
        IntegerType::Int8 => "c"@,
        IntegerType::UInt8 => "C"@,
        IntegerType::Int16 => "s"@,
        IntegerType::UInt16 => "S"@,
        IntegerType::Int32 => "i"@,
        IntegerType::UInt32 => "I"@,
        IntegerType::Int64 => "l"@,
        IntegerType::UInt64 => "L"@,
    }
}

/// The numerals of the type ids of a union: the given ones, or else the
/// places of its fields.
pub open spec fn numerals(fields: int, ids: Option<Seq<i32>>) -> Seq<Seq<char>> {
    match ids {
        Some(ids) => Seq::new(ids.len(), |i: int| decimal_int(ids[i] as int)),
        None => Seq::new(fields as nat, |i: int| decimal(i as nat)),
    }
}

/// The type ids of a union as text: their numerals with commas between.
pub open spec fn type_ids_text(fields: int, ids: Option<Seq<i32>>) -> Seq<char> {
    join(numerals(fields, ids), ',')
}

/// The format string of `data_type`.
pub open spec fn format_of(data_type: DataTypeView) -> Seq<char>
    decreases data_type,
{
    match data_type {
        DataTypeView::Null => "n"@,
        DataTypeView::Boolean => "b"@,
        DataTypeView::Int8 => "c"@,
        DataTypeView::UInt8 => "C"@,
        DataTypeView::Int16 => "s"@,
        DataTypeView::UInt16 => "S"@,
        DataTypeView::Int32 => "i"@,
        DataTypeView::UInt32 => "I"@,
        DataTypeView::Int64 => "l"@,
        DataTypeView::UInt64 => "L"@,
        DataTypeView::Float16 => "e"@,
        DataTypeView::Float32 => "f"@,
        DataTypeView::Float64 => "g"@,
        DataTypeView::Binary => "z"@,
        DataTypeView::LargeBinary => "Z"@,
        DataTypeView::Utf8 => "u"@,
        DataTypeView::LargeUtf8 => "U"@,
        DataTypeView::Date32 => "tdD"@,
        DataTypeView::Date64 => "tdm"@,
        DataTypeView::Time32(unit) => "tt"@.push(unit_letter(unit)),
        DataTypeView::Time64(unit) => "tt"@.push(unit_letter(unit)),
        DataTypeView::Duration(unit) => "tD"@.push(unit_letter(unit)),
        DataTypeView::Interval(unit) => match unit {
            IntervalUnit::YearMonth => "tiM"@,
            _ => "tiD"@,
        },
        DataTypeView::Timestamp(unit, tz) => "ts"@.push(unit_letter(unit)).push(':') + (match tz {
            Some(tz) => tz,
            None => Seq::empty(),
        }),
        DataTypeView::Decimal(precision, scale) => "d:"@ + decimal(precision) + ","@ + decimal(
            scale,
        ),
        DataTypeView::List(_) => "+l"@,
        DataTypeView::LargeList(_) => "+L"@,
        DataTypeView::Struct(_) => "+s"@,
        DataTypeView::FixedSizeBinary(size) => "w:"@ + decimal(size),
        DataTypeView::FixedSizeList(_, size) => "+w:"@ + decimal(size),
        DataTypeView::Union(fields, ids, mode) => (match mode {
            UnionMode::Sparse => "+us:"@,
            UnionMode::Dense => "+ud:"@,
        }) + type_ids_text(fields.len() as int, ids),
        DataTypeView::MapType(_, _) => "+m"@,
        DataTypeView::Dictionary(index, _, _) => integer_format(index),
        DataTypeView::Extension(_, inner, _) => format_of(*inner),
    }
}

/// The integer type that `format` names, if it names one.
pub open spec fn integer_type_of(format: Seq<char>) -> Option<IntegerType> {
    if format == "c"@ {
        Some(IntegerType::Int8)
    } else if format == "C"@ {
        Some(IntegerType::UInt8)
    } else if format == "s"@ {
        Some(IntegerType::Int16)
    } else if format == "S"@ {
        Some(IntegerType::UInt16)
    } else if format == "i"@ {
        Some(IntegerType::Int32)
    } else if format == "I"@ {
        Some(IntegerType::UInt32)
    } else if format == "l"@ {
        Some(IntegerType::Int64)
    } else if format == "L"@ {
        Some(IntegerType::UInt64)
    } else {
        None
    }
}

/// The type that `format` names, where the name is a fixed word and the
/// type has no children.
pub open spec fn fixed_type(format: Seq<char>) -> Option<DataTypeView> {
    if format == "n"@ {
        Some(DataTypeView::Null)
    } else if format == "b"@ {
        Some(DataTypeView::Boolean)
    } else if format == "c"@ {
        Some(DataTypeView::Int8)
    } else if format == "C"@ {
        Some(DataTypeView::UInt8)
    } else if format == "s"@ {
        Some(DataTypeView::Int16)
    } else if format == "S"@ {
        Some(DataTypeView::UInt16)
    } else if format == "i"@ {
        Some(DataTypeView::Int32)
    } else if format == "I"@ {
        Some(DataTypeView::UInt32)
    } else if format == "l"@ {
        Some(DataTypeView::Int64)
    } else if format == "L"@ {
        Some(DataTypeView::UInt64)
    } else if format == "e"@ {
        Some(DataTypeView::Float16)
    } else if format == "f"@ {
        Some(DataTypeView::Float32)
    } else if format == "g"@ {
        Some(DataTypeView::Float64)
    } else if format == "z"@ {
        Some(DataTypeView::Binary)
    } else if format == "Z"@ {
        Some(DataTypeView::LargeBinary)
    } else if format == "u"@ {
        Some(DataTypeView::Utf8)
    } else if format == "U"@ {
        Some(DataTypeView::LargeUtf8)
    } else if format == "tdD"@ {
        Some(DataTypeView::Date32)
    } else if format == "tdm"@ {
        Some(DataTypeView::Date64)
    } else if format == "tts"@ {
        Some(DataTypeView::Time32(TimeUnit::Second))
    } else if format == "ttm"@ {
        Some(DataTypeView::Time32(TimeUnit::Millisecond))
    } else if format == "ttu"@ {
        Some(DataTypeView::Time64(TimeUnit::Microsecond))
    } else if format == "ttn"@ {
        Some(DataTypeView::Time64(TimeUnit::Nanosecond))
    } else if format == "tDs"@ {
        Some(DataTypeView::Duration(TimeUnit::Second))
    } else if format == "tDm"@ {
        Some(DataTypeView::Duration(TimeUnit::Millisecond))
    } else if format == "tDu"@ {
        Some(DataTypeView::Duration(TimeUnit::Microsecond))
    } else if format == "tDn"@ {
        Some(DataTypeView::Duration(TimeUnit::Nanosecond))
    } else if format == "tiM"@ {
        Some(DataTypeView::Interval(IntervalUnit::YearMonth))
    } else if format == "tiD"@ {
        Some(DataTypeView::Interval(IntervalUnit::DayTime))
    } else {
        None
    }
}

/// The letter of a time unit in format strings.
fn letter_of(unit: &TimeUnit) -> (c: char)
    ensures
        c == unit_letter(*unit),
{
    match unit {
        TimeUnit::Second => 's',
        TimeUnit::Millisecond => 'm',
        TimeUnit::Microsecond => 'u',
        TimeUnit::Nanosecond => 'n',
    }
}

/// The format string of an integer type.
fn integer_to_format(index: &IntegerType) -> (s: String)
    ensures
        s@ == integer_format(*index),
{
    match index {
        IntegerType::Int8 => "c".to_string(),
        IntegerType::UInt8 => "C".to_string(),
        IntegerType::Int16 => "s".to_string(),
        IntegerType::UInt16 => "S".to_string(),
        IntegerType::Int32 => "i".to_string(),
        IntegerType::UInt32 => "I".to_string(),
        IntegerType::Int64 => "l".to_string(),
        IntegerType::UInt64 => "L".to_string(),
    }
}

/// Appends the type ids of a union to `out`, with commas between.
fn push_type_ids(out: &mut String, fields: usize, ids: &Option<Vec<i32>>)
    requires
        match ids {
            Some(ids) => ids@.len() > 0,
            None => fields > 0,
        },
    ensures
        final(out)@ == old(out)@ + type_ids_text(
            fields as int,
            match ids {
                Some(ids) => Some(ids@),
                None => None,
            },
        ),
{
    let ghost spec_ids = match ids {
        Some(ids) => Some(ids@),
        None => None,
    };
    let ghost all = numerals(fields as int, spec_ids);
    let n = match ids {
        Some(ids) => ids.len(),
        None => fields,
    };
    let mut i: usize = 0;
    while i < n
        invariant
            0 <= i <= n,
            n == all.len(),
            n > 0,
            all == numerals(fields as int, spec_ids),
            spec_ids == (match ids {
                Some(ids) => Some(ids@),
                None => None,
            }),
            out@ == old(out)@ + join(all.take(i as int), ','),
        decreases n - i,
    {
        if i > 0 {
            out.push(',');
        }
        match ids {
            Some(ids) => push_decimal_i32(out, ids[i]),
            None => push_decimal(out, i as u64),
        }
        proof {
            let p = all.take(i + 1);
            assert(p.drop_last() =~= all.take(i as int));
            assert(p.last() == all[i as int]);
            if i == 0 {
                assert(join(all.take(0), ',') =~= Seq::<char>::empty());
                assert(out@ =~= old(out)@ + join(p, ','));
            } else {
                assert(out@ =~= old(out)@ + join(p, ','));
            }
        }
        i += 1;
    }
    proof {
        assert(all.take(n as int) =~= all);
    }
}

/// The format string of `data_type`.
pub fn to_format(data_type: &DataType) -> (format: String)
    requires
        can_format(data_type@),
    ensures
        format@ == format_of(data_type@),
    decreases data_type,
{
    match data_type {
        DataType::Null => "n".to_string(),
        DataType::Boolean => "b".to_string(),
        DataType::Int8 => "c".to_string(),
        DataType::UInt8 => "C".to_string(),
        DataType::Int16 => "s".to_string(),
        DataType::UInt16 => "S".to_string(),
        DataType::Int32 => "i".to_string(),
        DataType::UInt32 => "I".to_string(),
        DataType::Int64 => "l".to_string(),
        DataType::UInt64 => "L".to_string(),
        DataType::Float16 => "e".to_string(),
        DataType::Float32 => "f".to_string(),
        DataType::Float64 => "g".to_string(),
        DataType::Binary => "z".to_string(),
        DataType::LargeBinary => "Z".to_string(),
        DataType::Utf8 => "u".to_string(),
        DataType::LargeUtf8 => "U".to_string(),
        DataType::Date32 => "tdD".to_string(),
        DataType::Date64 => "tdm".to_string(),
        DataType::Time32(unit) => {
            let mut r = "tt".to_string();
            r.push(letter_of(unit));
            r
        },
        DataType::Time64(unit) => {
            let mut r = "tt".to_string();
            r.push(letter_of(unit));
            r
        },
        DataType::Duration(unit) => {
            let mut r = "tD".to_string();
            r.push(letter_of(unit));
            r
        },
        DataType::Interval(unit) => match unit {
            IntervalUnit::YearMonth => "tiM".to_string(),
            _ => "tiD".to_string(),
        },
        DataType::Timestamp(unit, tz) => {
            let mut r = "ts".to_string();
            r.push(letter_of(unit));
            r.push(':');
            match tz {
                Some(tz) => {
                    r.append(tz.as_str());
                },
                None => {
                    assert(r@ + Seq::<char>::empty() =~= r@);
                },
            }
            r
        },
        DataType::Decimal(precision, scale) => {
            let mut r = "d:".to_string();
            push_decimal(&mut r, *precision as u64);
            r.push(',');
            push_decimal(&mut r, *scale as u64);
            proof {
                reveal_strlit(",");
                assert(r@ =~= "d:"@ + decimal(*precision as nat) + ","@ + decimal(*scale as nat));
            }
            r
        },
        DataType::List(_) => "+l".to_string(),
        DataType::LargeList(_) => "+L".to_string(),
        DataType::Struct(_) => "+s".to_string(),
        DataType::FixedSizeBinary(size) => {
            let mut r = "w:".to_string();
            push_decimal(&mut r, *size as u64);
            r
        },
        DataType::FixedSizeList(_, size) => {
            let mut r = "+w:".to_string();
            push_decimal(&mut r, *size as u64);
            r
        },
        DataType::Union(fields, ids, mode) => {
            let mut r = if mode.is_sparse() {
                "+us:".to_string()
            } else {
                "+ud:".to_string()
            };
            push_type_ids(&mut r, fields.len(), ids);
            r
        },
        DataType::MapType(_, _) => "+m".to_string(),
        DataType::Dictionary(index, _, _) => integer_to_format(index),
        DataType::Extension(_, inner, _) => to_format(inner),
    }
}

/// The integer type that `format` names. Other formats are out of
/// specification for the indices of a dictionary.
pub fn to_integer_type(format: &str) -> (r: Result<IntegerType, ArrowError>)
    ensures
        match r {
            Ok(index) => integer_type_of(format@) == Some(index),
            Err(e) => integer_type_of(format@) is None && e is OutOfSpec,
        },
{
    let f = chars_of(format);
    let f = f.as_slice();
    if chars_are(f, "c") {
        Ok(IntegerType::Int8)
    } else if chars_are(f, "C") {
        Ok(IntegerType::UInt8)
    } else if chars_are(f, "s") {
        Ok(IntegerType::Int16)
    } else if chars_are(f, "S") {
        Ok(IntegerType::UInt16)
    } else if chars_are(f, "i") {
        Ok(IntegerType::Int32)
    } else if chars_are(f, "I") {
        Ok(IntegerType::UInt32)
    } else if chars_are(f, "l") {
        Ok(IntegerType::Int64)
    } else if chars_are(f, "L") {
        Ok(IntegerType::UInt64)
    } else {
        Err(ArrowError::OutOfSpec("Dictionary indices can only be integers".to_string()))
    }
}

} // verus!
