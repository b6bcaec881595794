//! The format's stated laws, each proved once over the mathematical
//! encoding `enc` that `to_string` and `Serializer::serialize_value` are
//! specified against: what every value of each shape encodes to.

use vstd::prelude::*;

use crate::num::{
    dec_rep, dec_rep_signed, dec_val, is_digit_char, lemma_dec_rep_digits, lemma_dec_rep_denotes,
};
use crate::value::{enc, enc_fields, enc_list, enc_pairs, lit_null, Value};

verus! {

/// A boolean encodes to exactly the bare word `true` or `false`, matching
/// the value.
pub proof fn law_bool(b: bool)
    ensures
        enc(Value::Bool(b)) == (if b {
            seq!['t', 'r', 'u', 'e']
        } else {
            seq!['f', 'a', 'l', 's', 'e']
        }),
{
}

/// An unsigned integer encodes to its standard decimal numeral: nonempty,
/// digits only, no leading zero unless the value is zero, and denoting
/// exactly the integer it was made from.
pub proof fn law_uint(n: u64)
    ensures
        enc(Value::UInt(n)) == dec_rep(n as nat),
        dec_rep(n as nat).len() > 0,
        forall|i: int|
            0 <= i < dec_rep(n as nat).len() ==> is_digit_char(#[trigger] dec_rep(n as nat)[i]),
        n > 0 ==> dec_rep(n as nat)[0] != '0',
        dec_val(dec_rep(n as nat)) == n,
{
    lemma_dec_rep_digits(n as nat);
    lemma_dec_rep_denotes(n as nat);
}

/// A signed integer encodes to its standard decimal form: the magnitude's
/// numeral, preceded by a single '-' exactly when the value is negative,
/// and the digits denote exactly the magnitude.
pub proof fn law_int(n: i64)
    ensures
        enc(Value::Int(n)) == dec_rep_signed(n as int),
        n >= 0 ==> enc(Value::Int(n)) == dec_rep(n as nat) && dec_val(enc(Value::Int(n))) == n,
        n < 0 ==> enc(Value::Int(n)) == seq!['-'] + dec_rep((-(n as int)) as nat) && dec_val(
            enc(Value::Int(n)).skip(1),
        ) == -(n as int),
{
    if n >= 0 {
        lemma_dec_rep_denotes(n as nat);
    } else {
        lemma_dec_rep_denotes((-(n as int)) as nat);
        assert((seq!['-'] + dec_rep((-(n as int)) as nat)).skip(1) =~= dec_rep(
            (-(n as int)) as nat,
        ));
    }
}

/// A string encodes to its raw contents between two quote characters, with
/// no escaping of anything the contents hold.
pub proof fn law_str(s: String)
    ensures
        enc(Value::Str(s)) == seq!['"'] + s@ + seq!['"'],
{
}

/// A character encodes as a one-character string.
pub proof fn law_char(c: char)
    ensures
        enc(Value::Char(c)) == seq!['"', c, '"'],
{
}

/// An absent option and both unit shapes all encode to the same bare word
/// `null`.
pub proof fn law_null()
    ensures
        enc(Value::Absent) == lit_null(),
        enc(Value::Unit) == lit_null(),
        enc(Value::UnitStruct) == lit_null(),
{
}

/// A sum-type case with no payload encodes to its bare tag, nothing else.
pub proof fn law_unit_variant(t: String)
    ensures
        enc(Value::UnitVariant(t)) == t@,
{
}

/// The option and newtype-struct wrappers are transparent: the payload's
/// encoding stands alone, the wrapper leaves no trace.
pub proof fn law_transparent_wrappers(b: Box<Value>)
    ensures
        enc(Value::Present(b)) == enc(*b),
        enc(Value::NewtypeStruct(b)) == enc(*b),
{
}

/// A sum-type case with one payload: `{`, the bare tag, `:`, the payload's
/// encoding, `}`.
pub proof fn law_newtype_variant(t: String, b: Box<Value>)
    ensures
        enc(Value::NewtypeVariant(t, b)) == seq!['{'] + t@ + seq![':'] + enc(*b) + seq!['}'],
{
}

/// Empty composites: an empty sequence or tuple encodes to `[]`, an empty
/// map or struct to `{}` — the case where the buffer still ends in the
/// opening bracket when the composite closes, with zero elements written.
pub proof fn law_empty_composites(
    vs: Vec<Value>,
    ps: Vec<(Value, Value)>,
    fs: Vec<(String, Value)>,
)
    requires
        vs@.len() == 0,
        ps@.len() == 0,
        fs@.len() == 0,
    ensures
        enc(Value::List(vs)) == seq!['[', ']'],
        enc(Value::Tuple(vs)) == seq!['[', ']'],
        enc(Value::Dict(ps)) == seq!['{', '}'],
        enc(Value::Struct(fs)) == seq!['{', '}'],
{
    assert(enc_list(vs@, seq![' ']) == Seq::<char>::empty());
    assert(enc_list(vs@, seq![',']) == Seq::<char>::empty());
    assert(enc_pairs(ps@) == Seq::<char>::empty());
    assert(enc_fields(fs@) == Seq::<char>::empty());
    assert(enc(Value::List(vs)) =~= seq!['[', ']']);
    assert(enc(Value::Tuple(vs)) =~= seq!['[', ']']);
    assert(enc(Value::Dict(ps)) =~= seq!['{', '}']);
    assert(enc(Value::Struct(fs)) =~= seq!['{', '}']);
}

/// Encoding is deterministic: the text is the function `enc` of the value
/// alone, so any two encodings of the same value are byte-identical.
pub proof fn law_deterministic(v: Value, s1: Seq<char>, s2: Seq<char>)
    requires
        s1 == enc(v),
        s2 == enc(v),
    ensures
        s1 == s2,
{
}

} // verus!
