//! The closed sum type of value shapes the encoder handles, and the
//! mathematical statement of the text each shape encodes to.

use vstd::prelude::*;

use crate::num::{dec_rep, dec_rep_signed, is_digit_char, lemma_dec_rep_digits};

verus! {

/// A structured value to encode: one variant per shape the traversal
/// framework can report. Composites hold their already-walked children in
/// order; variant shapes carry the static tag of their sum-type case.
pub enum Value {
    Bool(bool),
    Int(i64),
    UInt(u64),
    Char(char),
    Str(String),
    Bytes(Vec<u8>),
    /// An option holding nothing.
    Absent,
    /// An option holding a value; the wrapper itself is transparent.
    Present(Box<Value>),
    Unit,
    UnitStruct,
    UnitVariant(String),
    NewtypeStruct(Box<Value>),
    NewtypeVariant(String, Box<Value>),
    List(Vec<Value>),
    Tuple(Vec<Value>),
    TupleStruct(Vec<Value>),
    TupleVariant(String, Vec<Value>),
    Dict(Vec<(Value, Value)>),
    Struct(Vec<(String, Value)>),
    StructVariant(String, Vec<(String, Value)>),
}

/// The text for a boolean truth.
pub open spec fn lit_true() -> Seq<char> {
    seq!['t', 'r', 'u', 'e']
}

/// The text for a boolean falsehood.
pub open spec fn lit_false() -> Seq<char> {
    seq!['f', 'a', 'l', 's', 'e']
}

/// The text for an absent option and for the unit shapes.
pub open spec fn lit_null() -> Seq<char> {
    seq!['n', 'u', 'l', 'l']
}

/// Whether a character may stand in a bare (unquoted) tag or field name.
pub open spec fn bare_ident_char(c: char) -> bool {
    ('a' <= c && c <= 'z') || ('A' <= c && c <= 'Z') || ('0' <= c && c <= '9') || c == '_'
}

/// Whether a tag or field name is a nonempty bare identifier, as the
/// traversal framework guarantees of every static name it reports.
pub open spec fn bare_ident(s: Seq<char>) -> bool {
    s.len() > 0 && forall|i: int| 0 <= i < s.len() ==> bare_ident_char(#[trigger] s[i])
}

/// Well-formedness of a value: every tag and field name throughout is a
/// nonempty bare identifier.
pub open spec fn wf(v: Value) -> bool
    decreases v,
{
    match v {
        Value::Bool(_) => true,
        Value::Int(_) => true,
        Value::UInt(_) => true,
        Value::Char(_) => true,
        Value::Str(_) => true,
        Value::Bytes(_) => true,
        Value::Absent => true,
        Value::Present(b) => wf(*b),
        Value::Unit => true,
        Value::UnitStruct => true,
        Value::UnitVariant(t) => bare_ident(t@),
        Value::NewtypeStruct(b) => wf(*b),
        Value::NewtypeVariant(t, b) => bare_ident(t@) && wf(*b),
        Value::List(vs) => forall|i: int| 0 <= i < vs@.len() ==> wf(#[trigger] vs@[i]),
        Value::Tuple(vs) => forall|i: int| 0 <= i < vs@.len() ==> wf(#[trigger] vs@[i]),
        Value::TupleStruct(vs) => forall|i: int| 0 <= i < vs@.len() ==> wf(#[trigger] vs@[i]),
        Value::TupleVariant(t, vs) => bare_ident(t@) && forall|i: int|
            0 <= i < vs@.len() ==> wf(#[trigger] vs@[i]),
        Value::Dict(ps) => forall|i: int|
            0 <= i < ps@.len() ==> wf((#[trigger] ps@[i]).0) && wf(ps@[i].1),
        Value::Struct(fs) => forall|i: int|
            0 <= i < fs@.len() ==> bare_ident((#[trigger] fs@[i]).0@) && wf(fs@[i].1),
        Value::StructVariant(t, fs) => bare_ident(t@) && forall|i: int|
            0 <= i < fs@.len() ==> bare_ident((#[trigger] fs@[i]).0@) && wf(fs@[i].1),
    }
}

/// The text a value encodes to. This is the whole format: every shape has a
/// defined encoding and none is rejected.
pub open spec fn enc(v: Value) -> Seq<char>
    decreases v,
{
    match v {
        Value::Bool(b) => if b {
            lit_true()
        } else {
            lit_false()
        },
        Value::Int(n) => dec_rep_signed(n as int),
        Value::UInt(n) => dec_rep(n as nat),
        Value::Char(c) => seq!['"', c, '"'],
        Value::Str(s) => seq!['"'] + s@ + seq!['"'],
        Value::Bytes(bs) => seq!['['] + enc_bytes(bs@) + seq![']'],
        Value::Absent => lit_null(),
        Value::Present(b) => enc(*b),
        Value::Unit => lit_null(),
        Value::UnitStruct => lit_null(),
        Value::UnitVariant(t) => t@,
        Value::NewtypeStruct(b) => enc(*b),
        Value::NewtypeVariant(t, b) => seq!['{'] + t@ + seq![':'] + enc(*b) + seq!['}'],
        Value::List(vs) => seq!['['] + enc_list(vs@, seq![' ']) + seq![']'],
        Value::Tuple(vs) => seq!['['] + enc_list(vs@, seq![' ']) + seq![']'],
        Value::TupleStruct(vs) => seq!['{', '['] + enc_list(vs@, seq![',']) + seq![']', '}'],
        Value::TupleVariant(t, vs) => seq!['{', '"'] + t@ + seq!['"', ':', '['] + enc_list(
            vs@,
            seq![' '],
        ) + seq![']', '}'],
        Value::Dict(ps) => seq!['{'] + enc_pairs(ps@) + seq!['}'],
        Value::Struct(fs) => seq!['{'] + enc_fields(fs@) + seq!['}'],
        Value::StructVariant(t, fs) => seq!['{'] + t@ + seq![':', '{'] + enc_fields(fs@) + seq![
            '}',
            '}',
        ],
    }
}

/// The elements of a sequence-like composite, separated by `sep`.
pub open spec fn enc_list(vs: Seq<Value>, sep: Seq<char>) -> Seq<char>
    decreases vs,
{
    if vs.len() == 0 {
        Seq::empty()
    } else if vs.len() == 1 {
        enc(vs[0])
    } else {
        enc_list(vs.drop_last(), sep) + sep + enc(vs.last())
    }
}

/// One key/value entry of a map: the key's encoding, a colon, the value's.
pub open spec fn enc_pair(p: (Value, Value)) -> Seq<char>
    decreases p,
{
    enc(p.0) + seq![':'] + enc(p.1)
}

/// The entries of a map, separated by single spaces.
pub open spec fn enc_pairs(ps: Seq<(Value, Value)>) -> Seq<char>
    decreases ps,
{
    if ps.len() == 0 {
        Seq::empty()
    } else if ps.len() == 1 {
        enc_pair(ps[0])
    } else {
        enc_pairs(ps.drop_last()) + seq![' '] + enc_pair(ps.last())
    }
}

/// One named field: the bare field name, a colon, the value's encoding.
pub open spec fn enc_field(f: (String, Value)) -> Seq<char>
    decreases f,
{
    f.0@ + seq![':'] + enc(f.1)
}

/// The named fields of a struct-like composite, separated by single spaces.
pub open spec fn enc_fields(fs: Seq<(String, Value)>) -> Seq<char>
    decreases fs,
{
    if fs.len() == 0 {
        Seq::empty()
    } else if fs.len() == 1 {
        enc_field(fs[0])
    } else {
        enc_fields(fs.drop_last()) + seq![' '] + enc_field(fs.last())
    }
}

/// The numerals of a byte string, one per byte, separated by single spaces.
pub open spec fn enc_bytes(bs: Seq<u8>) -> Seq<char>
    decreases bs.len(),
{
    if bs.len() == 0 {
        Seq::empty()
    } else if bs.len() == 1 {
        dec_rep(bs[0] as nat)
    } else {
        enc_bytes(bs.drop_last()) + seq![' '] + dec_rep(bs.last() as nat)
    }
}

/// Whether a character opens a composite in this format.
pub open spec fn opener_char(c: char) -> bool {
    c == '[' || c == '{'
}

/// The encoding of a well-formed value is never empty and never ends in an
/// opening bracket: the ground on which the trailing-character separator
/// rule stands.
pub proof fn lemma_enc_shape(v: Value)
    requires
        wf(v),
    ensures
        enc(v).len() > 0,
        !opener_char(enc(v).last()),
    decreases v,
{
    match v {
        Value::Bool(b) => {
            assert(enc(v).last() == 'e');
        },
        Value::Int(n) => {
            if n >= 0 {
                lemma_dec_rep_digits(n as nat);
                assert(is_digit_char(enc(v).last()));
            } else {
                lemma_dec_rep_digits((-(n as int)) as nat);
                assert(enc(v).last() == dec_rep((-(n as int)) as nat).last());
                assert(is_digit_char(enc(v).last()));
            }
        },
        Value::UInt(n) => {
            lemma_dec_rep_digits(n as nat);
            assert(is_digit_char(enc(v).last()));
        },
        Value::Char(c) => {
            assert(enc(v).last() == '"');
        },
        Value::Str(s) => {
            assert(enc(v).last() == '"');
        },
        Value::Bytes(bs) => {
            assert(enc(v).last() == ']');
        },
        Value::Absent => {
            assert(enc(v).last() == 'l');
        },
        Value::Present(b) => {
            lemma_enc_shape(*b);
        },
        Value::Unit => {
            assert(enc(v).last() == 'l');
        },
        Value::UnitStruct => {
            assert(enc(v).last() == 'l');
        },
        Value::UnitVariant(t) => {
            assert(bare_ident_char(t@[t@.len() - 1]));
        },
        Value::NewtypeStruct(b) => {
            lemma_enc_shape(*b);
        },
        Value::NewtypeVariant(t, b) => {
            assert(enc(v).last() == '}');
        },
        Value::List(vs) => {
            assert(enc(v).last() == ']');
        },
        Value::Tuple(vs) => {
            assert(enc(v).last() == ']');
        },
        Value::TupleStruct(vs) => {
            assert(enc(v).last() == '}');
        },
        Value::TupleVariant(t, vs) => {
            assert(enc(v).last() == '}');
        },
        Value::Dict(ps) => {
            assert(enc(v).last() == '}');
        },
        Value::Struct(fs) => {
            assert(enc(v).last() == '}');
        },
        Value::StructVariant(t, fs) => {
            assert(enc(v).last() == '}');
        },
    }
}

/// Extending the encoded prefix of a sequence-like composite by one element
/// appends the separator (after the first element) and the element's text.
pub proof fn lemma_enc_list_step(vs: Seq<Value>, i: int, sep: Seq<char>)
    requires
        0 <= i < vs.len(),
    ensures
        enc_list(vs.take(i + 1), sep) == if i == 0 {
            enc(vs[0])
        } else {
            enc_list(vs.take(i), sep) + sep + enc(vs[i])
        },
{
    let t = vs.take(i + 1);
    assert(t.drop_last() =~= vs.take(i));
    assert(t.last() == vs[i]);
    if i == 0 {
        assert(enc_list(t, sep) == enc(t[0]));
    }
}

/// The text of a nonempty sequence-like composite ends exactly as the text
/// of its last element does.
pub proof fn lemma_enc_list_last(vs: Seq<Value>, sep: Seq<char>)
    requires
        vs.len() > 0,
        wf(vs.last()),
    ensures
        enc_list(vs, sep).len() > 0,
        enc_list(vs, sep).last() == enc(vs.last()).last(),
{
    lemma_enc_shape(vs.last());
    if vs.len() == 1 {
        assert(enc_list(vs, sep) == enc(vs[0]));
    }
}

/// Extending the encoded prefix of a map by one entry appends the separator
/// (after the first entry) and the entry's `key:value` text.
pub proof fn lemma_enc_pairs_step(ps: Seq<(Value, Value)>, i: int)
    requires
        0 <= i < ps.len(),
    ensures
        enc_pairs(ps.take(i + 1)) == if i == 0 {
            enc_pair(ps[0])
        } else {
            enc_pairs(ps.take(i)) + seq![' '] + enc_pair(ps[i])
        },
{
    let t = ps.take(i + 1);
    assert(t.drop_last() =~= ps.take(i));
    assert(t.last() == ps[i]);
    if i == 0 {
        assert(enc_pairs(t) == enc_pair(t[0]));
    }
}

/// The text of a nonempty map ends exactly as the text of its last entry's
/// value does.
pub proof fn lemma_enc_pairs_last(ps: Seq<(Value, Value)>)
    requires
        ps.len() > 0,
        wf(ps.last().1),
    ensures
        enc_pairs(ps).len() > 0,
        enc_pairs(ps).last() == enc(ps.last().1).last(),
{
    lemma_enc_shape(ps.last().1);
    assert(enc_pair(ps.last()).last() == enc(ps.last().1).last());
    if ps.len() == 1 {
        assert(enc_pairs(ps) == enc_pair(ps[0]));
    }
}

/// Extending the encoded prefix of a struct-like composite by one field
/// appends the separator (after the first field) and the field's text.
pub proof fn lemma_enc_fields_step(fs: Seq<(String, Value)>, i: int)
    requires
        0 <= i < fs.len(),
    ensures
        enc_fields(fs.take(i + 1)) == if i == 0 {
            enc_field(fs[0])
        } else {
            enc_fields(fs.take(i)) + seq![' '] + enc_field(fs[i])
        },
{
    let t = fs.take(i + 1);
    assert(t.drop_last() =~= fs.take(i));
    assert(t.last() == fs[i]);
    if i == 0 {
        assert(enc_fields(t) == enc_field(t[0]));
    }
}

/// The text of a nonempty struct-like composite ends exactly as the text of
/// its last field's value does.
pub proof fn lemma_enc_fields_last(fs: Seq<(String, Value)>)
    requires
        fs.len() > 0,
        wf(fs.last().1),
    ensures
        enc_fields(fs).len() > 0,
        enc_fields(fs).last() == enc(fs.last().1).last(),
{
    lemma_enc_shape(fs.last().1);
    assert(enc_field(fs.last()).last() == enc(fs.last().1).last());
    if fs.len() == 1 {
        assert(enc_fields(fs) == enc_field(fs[0]));
    }
}

/// Extending the encoded prefix of a byte string by one byte appends the
/// separator (after the first byte) and the byte's numeral.
pub proof fn lemma_enc_bytes_step(bs: Seq<u8>, i: int)
    requires
        0 <= i < bs.len(),
    ensures
        enc_bytes(bs.take(i + 1)) == if i == 0 {
            dec_rep(bs[0] as nat)
        } else {
            enc_bytes(bs.take(i)) + seq![' '] + dec_rep(bs[i] as nat)
        },
{
    let t = bs.take(i + 1);
    assert(t.drop_last() =~= bs.take(i));
    assert(t.last() == bs[i]);
    if i == 0 {
        assert(enc_bytes(t) == dec_rep(t[0] as nat));
    }
}

/// The text of a nonempty byte string ends exactly as the numeral of its
/// last byte does, and a numeral never ends in an opening bracket.
pub proof fn lemma_enc_bytes_last(bs: Seq<u8>)
    requires
        bs.len() > 0,
    ensures
        enc_bytes(bs).len() > 0,
        enc_bytes(bs).last() == dec_rep(bs.last() as nat).last(),
        is_digit_char(enc_bytes(bs).last()),
{
    lemma_dec_rep_digits(bs.last() as nat);
    if bs.len() == 1 {
        assert(enc_bytes(bs) == dec_rep(bs[0] as nat));
    }
}

} // verus!
