//! How types of the intermediate representation are written in C.

use vstd::prelude::*;

use crate::ir::function::IrType;
use crate::ir::lower::scalar_ir_type;
use crate::layout::{is_numeric_kind, numeric_width, TypeKind};
use crate::text::decimal;

verus! {

/// The C spelling of `t`.
pub open spec fn c_type(t: IrType) -> Seq<char>
    decreases t,
{
    match t {
        IrType::I8 => "int8_t"@,
        IrType::I16 => "int16_t"@,
        IrType::I32 => "int32_t"@,
        IrType::I64 => "int64_t"@,
        IrType::U8 => "uint8_t"@,
        IrType::U16 => "uint16_t"@,
        IrType::U32 => "uint32_t"@,
        IrType::U64 => "uint64_t"@,
        IrType::Char => "char"@,
        IrType::Pointer => "_rawptr"@,
        IrType::TypedPointer(inner) => c_type(*inner) + "*"@,
        IrType::Unit => "_unit"@,
        IrType::Function { return_type, parameter_type } => c_type(*return_type) + "(*)("@
            + c_types_joined(parameter_type@) + ")"@,
    }
}

/// The C spellings of `ts`, separated by `", "`.
pub open spec fn c_types_joined(ts: Seq<IrType>) -> Seq<char>
    decreases ts,
{
    if ts.len() == 0 {
        Seq::empty()
    } else if ts.len() == 1 {
        c_type(ts[0])
    } else {
        c_types_joined(ts.drop_last()) + ", "@ + c_type(ts.last())
    }
}

/// The C spelling of `irtype`.
#[verifier::loop_isolation(false)]
pub fn write_type(irtype: &IrType) -> (r: String)
    ensures
        r@ == c_type(*irtype),
    decreases irtype,
{
    match irtype {
        IrType::I8 => crate::text::string_of("int8_t"),
        IrType::I16 => crate::text::string_of("int16_t"),
        IrType::I32 => crate::text::string_of("int32_t"),
        IrType::I64 => crate::text::string_of("int64_t"),
        IrType::U8 => crate::text::string_of("uint8_t"),
        IrType::U16 => crate::text::string_of("uint16_t"),
        IrType::U32 => crate::text::string_of("uint32_t"),
        IrType::U64 => crate::text::string_of("uint64_t"),
        IrType::Char => crate::text::string_of("char"),
        IrType::Pointer => crate::text::string_of("_rawptr"),
        IrType::TypedPointer(inner) => {
            let mut r = write_type(inner);
            r.append("*");
            r
        },
        IrType::Unit => crate::text::string_of("_unit"),
        IrType::Function { return_type, parameter_type } => {
            let mut r = write_type(return_type);
            r.append("(*)(");
            let ghost head = r@;
            let mut index: usize = 0;
            while index < parameter_type.len()
                invariant
                    index <= parameter_type@.len(),
                    r@ == head + c_types_joined(parameter_type@.take(index as int)),
                decreases parameter_type@.len() - index,
            {
                proof {
                    assert(decreases_to!(*irtype => *parameter_type));
                    assert(decreases_to!(*parameter_type => parameter_type@));
                    assert(decreases_to!(parameter_type@ => parameter_type@[index as int]));
                }
                let ghost prev = parameter_type@.take(index as int);
                if index != 0 {
                    r.append(", ");
                }
                let p = write_type(&parameter_type[index]);
                r.append(p.as_str());
                proof {
                    let next = parameter_type@.take(index + 1);
                    assert(next.drop_last() =~= prev);
                    assert(next.last() == parameter_type@[index as int]);
                    if index == 0 {
                        assert(next.len() == 1);
                    }
                }
                assert(r@ =~= head + c_types_joined(parameter_type@.take(index + 1)));
                index = index + 1;
            }
            assert(parameter_type@.take(parameter_type@.len() as int) =~= parameter_type@);
            r.append(")");
            r
        },
    }
}

/// An integer type of the program is written in C as the `stdint.h` type of the same
/// signedness and width: `int` and the width in bits and `_t`, with a `u` in front when
/// it is unsigned (`i16` is `int16_t`, `u64` is `uint64_t`).
pub proof fn law_integer_c_type(k: TypeKind)
    requires
        is_numeric_kind(k),
    ensures
        scalar_ir_type(k) matches Some(t) && c_type(t) == (if numeric_width(k).0 {
            ""@
        } else {
            "u"@
        }) + "int"@ + decimal(numeric_width(k).1 as nat) + "_t"@,
{
    reveal_strlit("");
    reveal_strlit("u");
    reveal_strlit("int");
    reveal_strlit("_t");
    reveal_strlit("int8_t");
    reveal_strlit("int16_t");
    reveal_strlit("int32_t");
    reveal_strlit("int64_t");
    reveal_strlit("uint8_t");
    reveal_strlit("uint16_t");
    reveal_strlit("uint32_t");
    reveal_strlit("uint64_t");
    reveal_with_fuel(decimal, 3);
    let (signed, w) = numeric_width(k);
    let t = scalar_ir_type(k)->0;
    assert(c_type(t) =~= (if signed {
        ""@
    } else {
        "u"@
    }) + "int"@ + decimal(w as nat) + "_t"@);
}

} // verus!
