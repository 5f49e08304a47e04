use vstd::prelude::*;

verus! {

/// The bit pattern of the double 0.0.
pub const FLOAT_ZERO: u64 = 0;

/// The bit pattern of the double 1.0.
pub const FLOAT_ONE: u64 = 0x3FF0_0000_0000_0000;

/// A runtime value: a double (held as its IEEE-754 bit pattern) or an
/// owned string (its bytes). Each value owns its payload; copying a value
/// copies the string.
#[derive(Debug)]
pub enum Value {
    Float(u64),
    Str(Vec<u8>),
}

/// The mathematical content of a runtime value.
pub enum Scalar {
    Num(u64),
    Text(Seq<u8>),
}

impl View for Value {
    type V = Scalar;

    open spec fn view(&self) -> Scalar {
        match self {
            Value::Float(b) => Scalar::Num(*b),
            Value::Str(s) => Scalar::Text(s@),
        }
    }
}

/// The double with bit pattern `bits` is zero (positive or negative zero).
pub open spec fn is_zero_bits(bits: u64) -> bool {
    bits & 0x7FFF_FFFF_FFFF_FFFFu64 == 0
}

/// Truthiness: a number is true iff it is not zero, a string iff it is not
/// empty (so the string "0" is true).
pub open spec fn truthy_spec(v: Scalar) -> bool {
    match v {
        Scalar::Num(b) => !is_zero_bits(b),
        Scalar::Text(s) => s.len() > 0,
    }
}

/// The truthiness of a runtime value.
pub fn truthy(v: &Value) -> (r: bool)
    ensures
        r == truthy_spec(v@),
{
    match v {
        Value::Float(b) => *b & 0x7FFF_FFFF_FFFF_FFFFu64 != 0,
        Value::Str(s) => s.len() != 0,
    }
}

/// A copy of a value that owns its own payload.
pub fn copy_value(v: &Value) -> (r: Value)
    ensures
        r@ == v@,
{
    match v {
        Value::Float(b) => Value::Float(*b),
        Value::Str(s) => {
            let mut c: Vec<u8> = Vec::new();
            let mut k: usize = 0;
            while k < s.len()
                invariant
                    0 <= k <= s.len(),
                    c@ == s@.subrange(0, k as int),
                decreases s.len() - k,
            {
                c.push(s[k]);
                proof {
                    assert(s@.subrange(0, k + 1) =~= s@.subrange(0, k as int).push(s@[k as int]));
                }
                k = k + 1;
            }
            proof {
                assert(s@.subrange(0, s@.len() as int) =~= s@);
            }
            Value::Str(c)
        },
    }
}

/// Truthiness on the cases that matter: both zeros are false, every other
/// number is true; the empty string is false, every other string is true,
/// the string "0" included.
pub proof fn lemma_truthiness(bits: u64, s: Seq<u8>)
    ensures
        !truthy_spec(Scalar::Num(FLOAT_ZERO)),
        !truthy_spec(Scalar::Num(0x8000_0000_0000_0000u64)),
        truthy_spec(Scalar::Num(FLOAT_ONE)),
        !is_zero_bits(bits) ==> truthy_spec(Scalar::Num(bits)),
        !truthy_spec(Scalar::Text(Seq::empty())),
        truthy_spec(Scalar::Text(seq![48u8])),
        s.len() > 0 ==> truthy_spec(Scalar::Text(s)),
{
    assert(0u64 & 0x7FFF_FFFF_FFFF_FFFFu64 == 0) by (bit_vector);
    assert(0x8000_0000_0000_0000u64 & 0x7FFF_FFFF_FFFF_FFFFu64 == 0) by (bit_vector);
    assert(0x3FF0_0000_0000_0000u64 & 0x7FFF_FFFF_FFFF_FFFFu64 != 0) by (bit_vector);
}

} // verus!
