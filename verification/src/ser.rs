//! The shape encoder: an append-only output buffer and one method per value
//! shape, each appending the shape's delimiters, separators and literal text.
//!
//! Whether a separator is owed before an element is decided by inspecting
//! the single most-recently-written character of the buffer: the composite's
//! own opening bracket there means no element has been written yet.

use vstd::prelude::*;
use vstd::string::StrSliceExecFns;
use vstd::string::StringExecFns;

use crate::error::Error;
use crate::num::{dec_rep, dec_rep_signed};
use crate::value::{
    enc, enc_bytes, enc_list, enc_pairs, enc_fields, enc_pair, enc_field, lit_true, lit_false,
    lit_null, wf, Value, lemma_enc_shape, lemma_enc_list_step, lemma_enc_list_last,
    lemma_enc_pairs_step, lemma_enc_pairs_last, lemma_enc_fields_step, lemma_enc_fields_last,
    lemma_enc_bytes_step, lemma_enc_bytes_last,
};

verus! {

/// What the separator rule leaves in the buffer: unchanged when the buffer
/// still ends in the composite's own opening bracket, otherwise the buffer
/// with the single separator character appended.
pub open spec fn with_separator(out: Seq<char>, opener: char, sep: char) -> Seq<char> {
    if out.len() > 0 && out.last() == opener {
        out
    } else {
        out.push(sep)
    }
}

/// Relies on String::push: appends the given character to the end of the string.
#[verifier::external_body]
fn push_char(s: &mut String, c: char)
    ensures
        final(s)@ == old(s)@.push(c),
{
    s.push(c);
}

/// The shape encoder. Its one piece of state is the output buffer, which
/// only ever grows by appends; its view is the buffer's text.
pub struct Serializer {
    output: String,
}

impl View for Serializer {
    type V = Seq<char>;

    closed spec fn view(&self) -> Seq<char> {
        self.output@
    }
}

impl Serializer {
    /// A fresh encoder with an empty output buffer.
    pub fn new() -> (s: Serializer)
        ensures
            s@ == Seq::<char>::empty(),
    {
        Serializer { output: String::new() }
    }

    /// Hands the finished buffer to the caller.
    pub fn finish(self) -> (out: String)
        ensures
            out@ == self@,
    {
        self.output
    }

    /// Appends the single separator character unless the buffer ends in the
    /// composite's own opening bracket, which means no element has been
    /// written yet.
    fn separator(&mut self, opener: char, sep: char)
        ensures
            final(self)@ == with_separator(old(self)@, opener, sep),
    {
        let n = self.output.as_str().unicode_len();
        let fresh = n > 0 && self.output.as_str().get_char(n - 1) == opener;
        if !fresh {
            push_char(&mut self.output, sep);
        }
    }

    /// A boolean: the bare word `true` or `false`.
    pub fn serialize_bool(&mut self, v: bool)
        ensures
            final(self)@ == old(self)@ + (if v {
                lit_true()
            } else {
                lit_false()
            }),
    {
        if v {
            self.output.append("true");
            proof {
                reveal_strlit("true");
                assert("true"@ =~= lit_true());
            }
        } else {
            self.output.append("false");
            proof {
                reveal_strlit("false");
                assert("false"@ =~= lit_false());
            }
        }
    }

    /// An unsigned integer: its decimal numeral, most significant digit
    /// first, written digit by digit.
    pub fn serialize_u64(&mut self, v: u64)
        ensures
            final(self)@ == old(self)@ + dec_rep(v as nat),
        decreases v,
    {
        if v >= 10 {
            self.serialize_u64(v / 10);
        }
        let d: u8 = (v % 10) as u8;
        push_char(&mut self.output, (48 + d) as char);
        proof {
            if v < 10 {
                assert(final(self)@ =~= old(self)@ + dec_rep(v as nat));
            } else {
                assert(final(self)@ =~= old(self)@ + (dec_rep((v / 10) as nat) + seq![
                    crate::num::digit_char((v % 10) as nat),
                ]));
            }
        }
    }

    pub fn serialize_u8(&mut self, v: u8)
        ensures
            final(self)@ == old(self)@ + dec_rep(v as nat),
    {
        self.serialize_u64(v as u64);
    }

    pub fn serialize_u16(&mut self, v: u16)
        ensures
            final(self)@ == old(self)@ + dec_rep(v as nat),
    {
        self.serialize_u64(v as u64);
    }

    pub fn serialize_u32(&mut self, v: u32)
        ensures
            final(self)@ == old(self)@ + dec_rep(v as nat),
    {
        self.serialize_u64(v as u64);
    }

    /// A signed integer: a leading '-' when negative, then the numeral of
    /// its magnitude.
    pub fn serialize_i64(&mut self, v: i64)
        ensures
            final(self)@ == old(self)@ + dec_rep_signed(v as int),
    {
        if v >= 0 {
            self.serialize_u64(v as u64);
        } else {
            push_char(&mut self.output, '-');
            let m: u64 = (-(v as i128)) as u64;
            self.serialize_u64(m);
            proof {
                assert(final(self)@ =~= old(self)@ + (seq!['-'] + dec_rep(m as nat)));
            }
        }
    }

    pub fn serialize_i8(&mut self, v: i8)
        ensures
            final(self)@ == old(self)@ + dec_rep_signed(v as int),
    {
        self.serialize_i64(v as i64);
    }

    pub fn serialize_i16(&mut self, v: i16)
        ensures
            final(self)@ == old(self)@ + dec_rep_signed(v as int),
    {
        self.serialize_i64(v as i64);
    }

    pub fn serialize_i32(&mut self, v: i32)
        ensures
            final(self)@ == old(self)@ + dec_rep_signed(v as int),
    {
        self.serialize_i64(v as i64);
    }

    /// A string: the raw contents between two quote characters, with no
    /// escaping of anything the contents may hold.
    pub fn serialize_str(&mut self, v: &str)
        ensures
            final(self)@ == old(self)@ + (seq!['"'] + v@ + seq!['"']),
    {
        push_char(&mut self.output, '"');
        self.output.append(v);
        push_char(&mut self.output, '"');
        proof {
            assert(final(self)@ =~= old(self)@ + (seq!['"'] + v@ + seq!['"']));
        }
    }

    /// A character: written as a one-character string.
    pub fn serialize_char(&mut self, v: char)
        ensures
            final(self)@ == old(self)@ + seq!['"', v, '"'],
    {
        push_char(&mut self.output, '"');
        push_char(&mut self.output, v);
        push_char(&mut self.output, '"');
        proof {
            assert(final(self)@ =~= old(self)@ + seq!['"', v, '"']);
        }
    }

    /// An absent option: the bare word `null`.
    pub fn serialize_none(&mut self)
        ensures
            final(self)@ == old(self)@ + lit_null(),
    {
        self.output.append("null");
        proof {
            reveal_strlit("null");
            assert("null"@ =~= lit_null());
        }
    }

    /// The unit value: written as `null`.
    pub fn serialize_unit(&mut self)
        ensures
            final(self)@ == old(self)@ + lit_null(),
    {
        self.serialize_none();
    }

    /// A unit struct: written as `null`; its name is discarded.
    pub fn serialize_unit_struct(&mut self)
        ensures
            final(self)@ == old(self)@ + lit_null(),
    {
        self.serialize_none();
    }

    /// A sum-type case with no payload: its bare tag, nothing else.
    pub fn serialize_unit_variant(&mut self, variant: &str)
        ensures
            final(self)@ == old(self)@ + variant@,
    {
        self.output.append(variant);
    }

    /// Opens a sum-type case with one payload: `{`, the bare tag, `:`.
    pub fn begin_newtype_variant(&mut self, variant: &str)
        ensures
            final(self)@ == old(self)@ + (seq!['{'] + variant@ + seq![':']),
    {
        push_char(&mut self.output, '{');
        self.output.append(variant);
        push_char(&mut self.output, ':');
        proof {
            assert(final(self)@ =~= old(self)@ + (seq!['{'] + variant@ + seq![':']));
        }
    }

    /// Closes a sum-type case with one payload.
    pub fn end_newtype_variant(&mut self)
        ensures
            final(self)@ == old(self)@ + seq!['}'],
    {
        push_char(&mut self.output, '}');
        proof {
            assert(final(self)@ =~= old(self)@ + seq!['}']);
        }
    }

    /// Opens a sequence or tuple.
    pub fn begin_seq(&mut self)
        ensures
            final(self)@ == old(self)@ + seq!['['],
    {
        push_char(&mut self.output, '[');
        proof {
            assert(final(self)@ =~= old(self)@ + seq!['[']);
        }
    }

    /// A single space before the second and every later sequence element.
    pub fn begin_seq_element(&mut self)
        ensures
            final(self)@ == with_separator(old(self)@, '[', ' '),
    {
        self.separator('[', ' ');
    }

    /// Closes a sequence or tuple.
    pub fn end_seq(&mut self)
        ensures
            final(self)@ == old(self)@ + seq![']'],
    {
        push_char(&mut self.output, ']');
        proof {
            assert(final(self)@ =~= old(self)@ + seq![']']);
        }
    }

    /// Opens a tuple struct: `{[`.
    pub fn begin_tuple_struct(&mut self)
        ensures
            final(self)@ == old(self)@ + seq!['{', '['],
    {
        push_char(&mut self.output, '{');
        push_char(&mut self.output, '[');
        proof {
            assert(final(self)@ =~= old(self)@ + seq!['{', '[']);
        }
    }

    /// A comma before the second and every later tuple-struct field: the one
    /// composite of the format with a comma separator.
    pub fn begin_tuple_struct_field(&mut self)
        ensures
            final(self)@ == with_separator(old(self)@, '[', ','),
    {
        self.separator('[', ',');
    }

    /// Closes a tuple struct: `]}`.
    pub fn end_tuple_struct(&mut self)
        ensures
            final(self)@ == old(self)@ + seq![']', '}'],
    {
        push_char(&mut self.output, ']');
        push_char(&mut self.output, '}');
        proof {
            assert(final(self)@ =~= old(self)@ + seq![']', '}']);
        }
    }

    /// Opens a tuple variant: `{`, the tag written as a quoted string (the
    /// generic string path, not the bare-token one), then `:[`.
    pub fn begin_tuple_variant(&mut self, variant: &str)
        ensures
            final(self)@ == old(self)@ + (seq!['{', '"'] + variant@ + seq!['"', ':', '[']),
    {
        push_char(&mut self.output, '{');
        self.serialize_str(variant);
        push_char(&mut self.output, ':');
        push_char(&mut self.output, '[');
        proof {
            assert(final(self)@ =~= old(self)@ + (seq!['{', '"'] + variant@ + seq!['"', ':', '[']));
        }
    }

    /// Closes a tuple variant: `]}`.
    pub fn end_tuple_variant(&mut self)
        ensures
            final(self)@ == old(self)@ + seq![']', '}'],
    {
        push_char(&mut self.output, ']');
        push_char(&mut self.output, '}');
        proof {
            assert(final(self)@ =~= old(self)@ + seq![']', '}']);
        }
    }

    /// Opens a map or a struct with named fields.
    pub fn begin_map(&mut self)
        ensures
            final(self)@ == old(self)@ + seq!['{'],
    {
        push_char(&mut self.output, '{');
        proof {
            assert(final(self)@ =~= old(self)@ + seq!['{']);
        }
    }

    /// A single space before the second and every later map key.
    pub fn begin_map_key(&mut self)
        ensures
            final(self)@ == with_separator(old(self)@, '{', ' '),
    {
        self.separator('{', ' ');
    }

    /// The colon between a map key and its value, written unconditionally.
    pub fn begin_map_value(&mut self)
        ensures
            final(self)@ == old(self)@ + seq![':'],
    {
        push_char(&mut self.output, ':');
        proof {
            assert(final(self)@ =~= old(self)@ + seq![':']);
        }
    }

    /// Closes a map or a struct with named fields.
    pub fn end_map(&mut self)
        ensures
            final(self)@ == old(self)@ + seq!['}'],
    {
        push_char(&mut self.output, '}');
        proof {
            assert(final(self)@ =~= old(self)@ + seq!['}']);
        }
    }

    /// A named field's lead-in: the separator rule, then the bare field name
    /// and a colon.
    pub fn begin_struct_field(&mut self, key: &str)
        ensures
            final(self)@ == with_separator(old(self)@, '{', ' ') + key@ + seq![':'],
    {
        self.separator('{', ' ');
        self.output.append(key);
        push_char(&mut self.output, ':');
        proof {
            assert(final(self)@ =~= with_separator(old(self)@, '{', ' ') + key@ + seq![':']);
        }
    }

    /// Opens a struct variant: `{`, the bare tag, `:{`.
    pub fn begin_struct_variant(&mut self, variant: &str)
        ensures
            final(self)@ == old(self)@ + (seq!['{'] + variant@ + seq![':', '{']),
    {
        push_char(&mut self.output, '{');
        self.output.append(variant);
        push_char(&mut self.output, ':');
        push_char(&mut self.output, '{');
        proof {
            assert(final(self)@ =~= old(self)@ + (seq!['{'] + variant@ + seq![':', '{']));
        }
    }

    /// Closes a struct variant: `}}`.
    pub fn end_struct_variant(&mut self)
        ensures
            final(self)@ == old(self)@ + seq!['}', '}'],
    {
        push_char(&mut self.output, '}');
        push_char(&mut self.output, '}');
        proof {
            assert(final(self)@ =~= old(self)@ + seq!['}', '}']);
        }
    }

    /// A byte string: re-dispatched as a sequence of unsigned numerals, one
    /// element per byte.
    #[verifier::loop_isolation(false)]
    pub fn serialize_bytes(&mut self, v: &[u8])
        ensures
            final(self)@ == old(self)@ + (seq!['['] + enc_bytes(v@) + seq![']']),
    {
        self.begin_seq();
        let ghost pre = old(self)@;
        proof {
            assert(pre + seq!['['] + enc_bytes(v@.take(0)) =~= pre + seq!['[']);
        }
        let mut i: usize = 0;
        while i < v.len()
            invariant
                i <= v.len(),
                self@ == pre + seq!['['] + enc_bytes(v@.take(i as int)),
            decreases v.len() - i,
        {
            proof {
                if i == 0 {
                    assert(v@.take(0) =~= Seq::<u8>::empty());
                    assert(self@ =~= pre + seq!['[']);
                } else {
                    lemma_enc_bytes_last(v@.take(i as int));
                }
            }
            self.begin_seq_element();
            self.serialize_u8(v[i]);
            proof {
                lemma_enc_bytes_step(v@, i as int);
                assert(self@ =~= pre + seq!['['] + enc_bytes(v@.take(i as int + 1)));
            }
            i += 1;
        }
        proof {
            assert(v@.take(v@.len() as int) =~= v@);
        }
        self.end_seq();
        proof {
            assert(final(self)@ =~= pre + (seq!['['] + enc_bytes(v@) + seq![']']));
        }
    }

    /// Writes the elements of a sequence-like composite, separated by `sep`,
    /// into a buffer that ends in the composite's opening `[`.
    #[verifier::loop_isolation(false)]
    fn write_elements(&mut self, vs: &Vec<Value>, sep: char)
        requires
            old(self)@.len() > 0,
            old(self)@.last() == '[',
            forall|j: int| 0 <= j < vs@.len() ==> wf(#[trigger] vs@[j]),
        ensures
            final(self)@ == old(self)@ + enc_list(vs@, seq![sep]),
        decreases *vs,
    {
        let ghost pre = old(self)@;
        proof {
            assert(pre + enc_list(vs@.take(0), seq![sep]) =~= pre);
        }
        let mut i: usize = 0;
        while i < vs.len()
            invariant
                i <= vs.len(),
                self@ == pre + enc_list(vs@.take(i as int), seq![sep]),
            decreases vs.len() - i,
        {
            proof {
                if i == 0 {
                    assert(vs@.take(0) =~= Seq::<Value>::empty());
                    assert(self@ =~= pre);
                } else {
                    lemma_enc_list_last(vs@.take(i as int), seq![sep]);
                    lemma_enc_shape(vs@[i as int - 1]);
                }
            }
            self.separator('[', sep);
            self.serialize_value(&vs[i]);
            proof {
                lemma_enc_list_step(vs@, i as int, seq![sep]);
                assert(self@ =~= pre + enc_list(vs@.take(i as int + 1), seq![sep]));
            }
            i += 1;
        }
        proof {
            assert(vs@.take(vs@.len() as int) =~= vs@);
        }
    }

    /// Writes the `key:value` entries of a map, space-separated, into a
    /// buffer that ends in the map's opening `{`.
    #[verifier::loop_isolation(false)]
    fn write_pairs(&mut self, ps: &Vec<(Value, Value)>)
        requires
            old(self)@.len() > 0,
            old(self)@.last() == '{',
            forall|j: int| 0 <= j < ps@.len() ==> wf((#[trigger] ps@[j]).0) && wf(ps@[j].1),
        ensures
            final(self)@ == old(self)@ + enc_pairs(ps@),
        decreases *ps,
    {
        let ghost pre = old(self)@;
        proof {
            assert(pre + enc_pairs(ps@.take(0)) =~= pre);
        }
        let mut i: usize = 0;
        while i < ps.len()
            invariant
                i <= ps.len(),
                self@ == pre + enc_pairs(ps@.take(i as int)),
            decreases ps.len() - i,
        {
            proof {
                if i == 0 {
                    assert(ps@.take(0) =~= Seq::<(Value, Value)>::empty());
                    assert(self@ =~= pre);
                } else {
                    lemma_enc_pairs_last(ps@.take(i as int));
                    lemma_enc_shape(ps@[i as int - 1].1);
                }
            }
            self.begin_map_key();
            let p = &ps[i];
            self.serialize_value(&p.0);
            self.begin_map_value();
            self.serialize_value(&p.1);
            proof {
                lemma_enc_pairs_step(ps@, i as int);
                assert(enc_pair(ps@[i as int]) == enc(ps@[i as int].0) + seq![':'] + enc(
                    ps@[i as int].1,
                ));
                assert(self@ =~= pre + enc_pairs(ps@.take(i as int + 1)));
            }
            i += 1;
        }
        proof {
            assert(ps@.take(ps@.len() as int) =~= ps@);
        }
    }

    /// Writes the named fields of a struct-like composite, space-separated,
    /// into a buffer that ends in the composite's opening `{`.
    #[verifier::loop_isolation(false)]
    fn write_fields(&mut self, fs: &Vec<(String, Value)>)
        requires
            old(self)@.len() > 0,
            old(self)@.last() == '{',
            forall|j: int| 0 <= j < fs@.len() ==> wf((#[trigger] fs@[j]).1),
        ensures
            final(self)@ == old(self)@ + enc_fields(fs@),
        decreases *fs,
    {
        let ghost pre = old(self)@;
        proof {
            assert(pre + enc_fields(fs@.take(0)) =~= pre);
        }
        let mut i: usize = 0;
        while i < fs.len()
            invariant
                i <= fs.len(),
                self@ == pre + enc_fields(fs@.take(i as int)),
            decreases fs.len() - i,
        {
            proof {
                if i == 0 {
                    assert(fs@.take(0) =~= Seq::<(String, Value)>::empty());
                    assert(self@ =~= pre);
                } else {
                    lemma_enc_fields_last(fs@.take(i as int));
                    lemma_enc_shape(fs@[i as int - 1].1);
                }
            }
            let f = &fs[i];
            self.begin_struct_field(f.0.as_str());
            self.serialize_value(&f.1);
            proof {
                lemma_enc_fields_step(fs@, i as int);
                assert(enc_field(fs@[i as int]) == fs@[i as int].0@ + seq![':'] + enc(
                    fs@[i as int].1,
                ));
                assert(self@ =~= pre + enc_fields(fs@.take(i as int + 1)));
            }
            i += 1;
        }
        proof {
            assert(fs@.take(fs@.len() as int) =~= fs@);
        }
    }

    /// Encodes one value: dispatches exhaustively on its shape and appends
    /// exactly the text the format assigns to it. Total: no shape is
    /// rejected and the bracket and separator logic never fails.
    pub fn serialize_value(&mut self, v: &Value)
        requires
            wf(*v),
        ensures
            final(self)@ == old(self)@ + enc(*v),
        decreases *v,
    {
        match v {
            Value::Bool(b) => {
                self.serialize_bool(*b);
            },
            Value::Int(n) => {
                self.serialize_i64(*n);
            },
            Value::UInt(n) => {
                self.serialize_u64(*n);
            },
            Value::Char(c) => {
                self.serialize_char(*c);
            },
            Value::Str(s) => {
                self.serialize_str(s.as_str());
            },
            Value::Bytes(bs) => {
                self.serialize_bytes(bs.as_slice());
            },
            Value::Absent => {
                self.serialize_none();
            },
            Value::Present(b) => {
                self.serialize_value(&**b);
            },
            Value::Unit => {
                self.serialize_unit();
            },
            Value::UnitStruct => {
                self.serialize_unit_struct();
            },
            Value::UnitVariant(t) => {
                self.serialize_unit_variant(t.as_str());
            },
            Value::NewtypeStruct(b) => {
                self.serialize_value(&**b);
            },
            Value::NewtypeVariant(t, b) => {
                self.begin_newtype_variant(t.as_str());
                self.serialize_value(&**b);
                self.end_newtype_variant();
                proof {
                    assert(self@ =~= old(self)@ + enc(*v));
                }
            },
            Value::List(vs) => {
                self.begin_seq();
                self.write_elements(vs, ' ');
                self.end_seq();
                proof {
                    assert(self@ =~= old(self)@ + enc(*v));
                }
            },
            Value::Tuple(vs) => {
                self.begin_seq();
                self.write_elements(vs, ' ');
                self.end_seq();
                proof {
                    assert(self@ =~= old(self)@ + enc(*v));
                }
            },
            Value::TupleStruct(vs) => {
                self.begin_tuple_struct();
                self.write_elements(vs, ',');
                self.end_tuple_struct();
                proof {
                    assert(self@ =~= old(self)@ + enc(*v));
                }
            },
            Value::TupleVariant(t, vs) => {
                self.begin_tuple_variant(t.as_str());
                self.write_elements(vs, ' ');
                self.end_tuple_variant();
                proof {
                    assert(self@ =~= old(self)@ + enc(*v));
                }
            },
            Value::Dict(ps) => {
                self.begin_map();
                self.write_pairs(ps);
                self.end_map();
                proof {
                    assert(self@ =~= old(self)@ + enc(*v));
                }
            },
            Value::Struct(fs) => {
                self.begin_map();
                self.write_fields(fs);
                self.end_map();
                proof {
                    assert(self@ =~= old(self)@ + enc(*v));
                }
            },
            Value::StructVariant(t, fs) => {
                self.begin_struct_variant(t.as_str());
                self.write_fields(fs);
                self.end_struct_variant();
                proof {
                    assert(self@ =~= old(self)@ + enc(*v));
                }
            },
        }
    }

    /// A numeric token whose decimal text the host has already rendered
    /// (the format's floating-point literals, which this library does not
    /// model): appended exactly as given.
    pub fn append_number_token(&mut self, v: &str)
        ensures
            final(self)@ == old(self)@ + v@,
    {
        self.output.append(v);
    }
}

/// Encodes one root value into its complete textual form and returns the
/// finished buffer. Total over every well-formed value: the error case
/// exists for the host value's own traversal logic, which the closed walk
/// over `Value` never invokes, so the result is always the complete text.
pub fn to_string(value: &Value) -> (r: Result<String, Error>)
    requires
        wf(*value),
    ensures
        r matches Ok(out) && out@ == enc(*value),
{
    let mut serializer = Serializer::new();
    serializer.serialize_value(value);
    proof {
        assert(Seq::<char>::empty() + enc(*value) =~= enc(*value));
    }
    Ok(serializer.finish())
}

} // verus!
