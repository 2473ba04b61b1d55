use vstd::prelude::*;

use crate::codec::{
    decode_double_at, decode_raw_at, decode_text_at, double_bytes, encode_double, encode_raw,
    encode_text, parse_double, parse_raw, parse_text, raw_bytes, text_bytes,
};
use crate::error::DecodeError;
use crate::rpc::{
    decode_definition_field_at, definition_blob, definition_valid, parse_definition_field,
    Parameter, RPCDefinitionData, RpcResult,
};
use crate::varint::varint_bytes;
use vstd::utf8::encode_utf8;

verus! {

/// The closed set of value kinds; one byte on the wire.
#[derive(Debug, Clone, Copy, PartialEq, Eq, Structural)]
pub enum EntryType {
    Boolean,
    Double,
    String,
    Raw,
    BooleanArray,
    DoubleArray,
    StringArray,
    RPCDefinition,
}

/// A typed value. `Double` holds the IEEE-754 bit pattern of the number.
#[derive(Debug)]
pub enum EntryValue {
    Boolean(bool),
    Double(u64),
    String(String),
    Raw(Vec<u8>),
    BooleanArray(Vec<bool>),
    DoubleArray(Vec<u64>),
    StringArray(Vec<String>),
    RPCDefinition(RPCDefinitionData),
}

/// The mathematical content of an `EntryValue`.
pub enum ValueModel {
    Boolean(bool),
    Double(u64),
    String(Seq<char>),
    Raw(Seq<u8>),
    BooleanArray(Seq<bool>),
    DoubleArray(Seq<u64>),
    StringArray(Seq<Seq<char>>),
    RPCDefinition(DefinitionModel),
}

/// The mathematical content of an `RPCDefinitionData`.
pub struct DefinitionModel {
    pub version: u8,
    pub name: Seq<char>,
    pub parameters: Seq<ParameterModel>,
    pub results: Seq<ResultModel>,
}

/// The mathematical content of a `Parameter`.
pub struct ParameterModel {
    pub ty: EntryType,
    pub name: Seq<char>,
    pub default: ValueModel,
}

/// The mathematical content of an `RpcResult`.
pub struct ResultModel {
    pub ty: EntryType,
    pub name: Seq<char>,
}

pub open spec fn strings_model(v: Seq<String>) -> Seq<Seq<char>> {
    v.map_values(|s: String| s@)
}

pub open spec fn value_model(v: EntryValue) -> ValueModel
    decreases v,
{
    match v {
        EntryValue::Boolean(b) => ValueModel::Boolean(b),
        EntryValue::Double(d) => ValueModel::Double(d),
        EntryValue::String(s) => ValueModel::String(s@),
        EntryValue::Raw(r) => ValueModel::Raw(r@),
        EntryValue::BooleanArray(a) => ValueModel::BooleanArray(a@),
        EntryValue::DoubleArray(a) => ValueModel::DoubleArray(a@),
        EntryValue::StringArray(a) => ValueModel::StringArray(strings_model(a@)),
        EntryValue::RPCDefinition(d) => ValueModel::RPCDefinition(definition_model(d)),
    }
}

pub open spec fn definition_model(d: RPCDefinitionData) -> DefinitionModel
    decreases d,
{
    DefinitionModel {
        version: d.version,
        name: d.procedure_name@,
        parameters: parameters_model(d.parameters@),
        results: results_model(d.results@),
    }
}

pub open spec fn parameters_model(ps: Seq<Parameter>) -> Seq<ParameterModel>
    decreases ps,
{
    if ps.len() == 0 {
        Seq::empty()
    } else {
        parameters_model(ps.drop_last()).push(parameter_model(ps.last()))
    }
}

pub open spec fn parameter_model(p: Parameter) -> ParameterModel
    decreases p,
{
    ParameterModel {
        ty: p.parameter_type,
        name: p.parameter_name@,
        default: value_model(p.parameter_default),
    }
}

pub open spec fn result_model(r: RpcResult) -> ResultModel {
    ResultModel { ty: r.result_type, name: r.result_name@ }
}

pub open spec fn results_model(rs: Seq<RpcResult>) -> Seq<ResultModel> {
    rs.map_values(|r: RpcResult| result_model(r))
}

impl View for EntryValue {
    type V = ValueModel;

    open spec fn view(&self) -> ValueModel {
        value_model(*self)
    }
}

/// The type tag of each kind on the wire.
pub open spec fn type_tag(t: EntryType) -> u8 {
    match t {
        EntryType::Boolean => 0x00,
        EntryType::Double => 0x01,
        EntryType::String => 0x02,
        EntryType::Raw => 0x03,
        EntryType::BooleanArray => 0x10,
        EntryType::DoubleArray => 0x11,
        EntryType::StringArray => 0x12,
        EntryType::RPCDefinition => 0x20,
    }
}

/// The kind a tag byte names, if any.
pub open spec fn tag_type(b: u8) -> Option<EntryType> {
    if b == 0x00 {
        Some(EntryType::Boolean)
    } else if b == 0x01 {
        Some(EntryType::Double)
    } else if b == 0x02 {
        Some(EntryType::String)
    } else if b == 0x03 {
        Some(EntryType::Raw)
    } else if b == 0x10 {
        Some(EntryType::BooleanArray)
    } else if b == 0x11 {
        Some(EntryType::DoubleArray)
    } else if b == 0x12 {
        Some(EntryType::StringArray)
    } else if b == 0x20 {
        Some(EntryType::RPCDefinition)
    } else {
        None
    }
}

/// The kind of a value.
pub open spec fn model_type(m: ValueModel) -> EntryType {
    match m {
        ValueModel::Boolean(_) => EntryType::Boolean,
        ValueModel::Double(_) => EntryType::Double,
        ValueModel::String(_) => EntryType::String,
        ValueModel::Raw(_) => EntryType::Raw,
        ValueModel::BooleanArray(_) => EntryType::BooleanArray,
        ValueModel::DoubleArray(_) => EntryType::DoubleArray,
        ValueModel::StringArray(_) => EntryType::StringArray,
        ValueModel::RPCDefinition(_) => EntryType::RPCDefinition,
    }
}

/// Reads a type tag at `pos`.
pub open spec fn parse_type(s: Seq<u8>, pos: int) -> Result<(EntryType, int), DecodeError> {
    if pos < 0 || pos >= s.len() {
        Err(DecodeError::TruncatedInput)
    } else {
        match tag_type(s[pos]) {
            Some(t) => Ok((t, pos + 1)),
            None => Err(DecodeError::UnknownTypeTag),
        }
    }
}

pub open spec fn bool_byte(b: bool) -> u8 {
    if b {
        1
    } else {
        0
    }
}

pub open spec fn doubles_body(a: Seq<u64>) -> Seq<u8>
    decreases a.len(),
{
    if a.len() == 0 {
        Seq::empty()
    } else {
        doubles_body(a.drop_last()) + double_bytes(a.last())
    }
}

pub open spec fn texts_body(a: Seq<Seq<char>>) -> Seq<u8>
    decreases a.len(),
{
    if a.len() == 0 {
        Seq::empty()
    } else {
        texts_body(a.drop_last()) + text_bytes(a.last())
    }
}

/// The bytes of a value, without its type tag.
pub open spec fn value_bytes(m: ValueModel) -> Seq<u8>
    decreases m,
{
    match m {
        ValueModel::Boolean(b) => seq![bool_byte(b)],
        ValueModel::Double(d) => double_bytes(d),
        ValueModel::String(s) => text_bytes(s),
        ValueModel::Raw(r) => raw_bytes(r),
        ValueModel::BooleanArray(a) => seq![a.len() as u8] + a.map_values(|b: bool| bool_byte(b)),
        ValueModel::DoubleArray(a) => seq![a.len() as u8] + doubles_body(a),
        ValueModel::StringArray(a) => seq![a.len() as u8] + texts_body(a),
        ValueModel::RPCDefinition(d) => varint_bytes(definition_blob(d).len()) + definition_blob(d),
    }
}

/// A text whose UTF-8 length fits a varint.
pub open spec fn text_valid(s: Seq<char>) -> bool {
    encode_utf8(s).len() <= u64::MAX
}

/// A value that the wire format can carry: array counts fit one byte, and
/// a definition is well formed.
pub open spec fn value_valid(m: ValueModel) -> bool
    decreases m,
{
    match m {
        ValueModel::String(s) => text_valid(s),
        ValueModel::Raw(r) => r.len() <= u64::MAX,
        ValueModel::BooleanArray(a) => a.len() <= 255,
        ValueModel::DoubleArray(a) => a.len() <= 255,
        ValueModel::StringArray(a) => a.len() <= 255 && forall|i: int|
            0 <= i < a.len() ==> text_valid(#[trigger] a[i]),
        ValueModel::RPCDefinition(d) => definition_valid(d),
        _ => true,
    }
}

/// Reads `n` doubles, one after the other, from `pos`.
pub open spec fn parse_doubles(s: Seq<u8>, pos: int, n: nat) -> Result<(Seq<u64>, int), DecodeError>
    decreases n,
{
    if n == 0 {
        Ok((Seq::empty(), pos))
    } else {
        match parse_doubles(s, pos, (n - 1) as nat) {
            Err(e) => Err(e),
            Ok((a, p)) => match parse_double(s, p) {
                Err(e) => Err(e),
                Ok((d, e)) => Ok((a.push(d), e)),
            },
        }
    }
}

/// Reads `n` text fields, one after the other, from `pos`.
pub open spec fn parse_texts(s: Seq<u8>, pos: int, n: nat) -> Result<(Seq<Seq<char>>, int), DecodeError>
    decreases n,
{
    if n == 0 {
        Ok((Seq::empty(), pos))
    } else {
        match parse_texts(s, pos, (n - 1) as nat) {
            Err(e) => Err(e),
            Ok((a, p)) => match parse_text(s, p) {
                Err(e) => Err(e),
                Ok((t, e)) => Ok((a.push(t), e)),
            },
        }
    }
}

/// Reads a value of kind `t` at `pos`: the value and the position past it.
pub open spec fn parse_value(t: EntryType, s: Seq<u8>, pos: int) -> Result<(ValueModel, int), DecodeError>
    decreases s.len(), 1nat, 0nat,
{
    if pos < 0 || pos > s.len() {
        Err(DecodeError::TruncatedInput)
    } else {
        match t {
            EntryType::Boolean => if pos >= s.len() {
                Err(DecodeError::TruncatedInput)
            } else {
                Ok((ValueModel::Boolean(s[pos] != 0), pos + 1))
            },
            EntryType::Double => match parse_double(s, pos) {
                Err(e) => Err(e),
                Ok((d, e)) => Ok((ValueModel::Double(d), e)),
            },
            EntryType::String => match parse_text(s, pos) {
                Err(e) => Err(e),
                Ok((x, e)) => Ok((ValueModel::String(x), e)),
            },
            EntryType::Raw => match parse_raw(s, pos) {
                Err(e) => Err(e),
                Ok((x, e)) => Ok((ValueModel::Raw(x), e)),
            },
            EntryType::BooleanArray => if pos >= s.len() || s[pos] > s.len() - pos - 1 {
                Err(DecodeError::TruncatedInput)
            } else {
                Ok(
                    (
                        ValueModel::BooleanArray(
                            s.subrange(pos + 1, pos + 1 + s[pos]).map_values(|b: u8| b != 0),
                        ),
                        pos + 1 + s[pos],
                    ),
                )
            },
            EntryType::DoubleArray => if pos >= s.len() {
                Err(DecodeError::TruncatedInput)
            } else {
                match parse_doubles(s, pos + 1, s[pos] as nat) {
                    Err(e) => Err(e),
                    Ok((a, e)) => Ok((ValueModel::DoubleArray(a), e)),
                }
            },
            EntryType::StringArray => if pos >= s.len() {
                Err(DecodeError::TruncatedInput)
            } else {
                match parse_texts(s, pos + 1, s[pos] as nat) {
                    Err(e) => Err(e),
                    Ok((a, e)) => Ok((ValueModel::StringArray(a), e)),
                }
            },
            EntryType::RPCDefinition => match parse_definition_field(s, pos) {
                Err(e) => Err(e),
                Ok((d, e)) => Ok((ValueModel::RPCDefinition(d), e)),
            },
        }
    }
}

impl EntryType {
    /// The tag byte of this kind.
    pub fn tag(&self) -> (r: u8)
        ensures
            r == type_tag(*self),
    {
        match self {
            EntryType::Boolean => 0x00,
            EntryType::Double => 0x01,
            EntryType::String => 0x02,
            EntryType::Raw => 0x03,
            EntryType::BooleanArray => 0x10,
            EntryType::DoubleArray => 0x11,
            EntryType::StringArray => 0x12,
            EntryType::RPCDefinition => 0x20,
        }
    }

    /// The kind a tag byte names, if any.
    pub fn from_tag(b: u8) -> (r: Option<EntryType>)
        ensures
            r == tag_type(b),
    {
        if b == 0x00 {
            Some(EntryType::Boolean)
        } else if b == 0x01 {
            Some(EntryType::Double)
        } else if b == 0x02 {
            Some(EntryType::String)
        } else if b == 0x03 {
            Some(EntryType::Raw)
        } else if b == 0x10 {
            Some(EntryType::BooleanArray)
        } else if b == 0x11 {
            Some(EntryType::DoubleArray)
        } else if b == 0x12 {
            Some(EntryType::StringArray)
        } else if b == 0x20 {
            Some(EntryType::RPCDefinition)
        } else {
            None
        }
    }

    /// Appends the tag byte.
    pub fn encode(&self, out: &mut Vec<u8>)
        ensures
            final(out)@ == old(out)@.push(type_tag(*self)),
    {
        out.push(self.tag());
    }

    /// Reads one tag byte from the front of `buf`.
    pub fn decode(buf: &[u8]) -> (r: Result<(EntryType, usize), DecodeError>)
        ensures
            match parse_type(buf@, 0) {
                Ok((t, e)) => r is Ok && (r->Ok_0).0 == t && (r->Ok_0).1 == e,
                Err(x) => r == Err::<(EntryType, usize), DecodeError>(x),
            },
    {
        decode_type_at(buf, 0)
    }

    /// Reads a value of this kind from the front of `buf`: the value and the
    /// number of bytes it took.
    pub fn decode_value(&self, buf: &[u8]) -> (r: Result<(EntryValue, usize), DecodeError>)
        ensures
            match parse_value(*self, buf@, 0) {
                Ok((m, e)) => r is Ok && (r->Ok_0).0@ == m && (r->Ok_0).1 == e,
                Err(x) => r matches Err(y) && y == x,
            },
    {
        decode_value_at(*self, buf, 0)
    }
}

impl EntryValue {
    /// The kind of this value.
    pub fn entry_type(&self) -> (r: EntryType)
        ensures
            r == model_type(self@),
    {
        match self {
            EntryValue::Boolean(_) => EntryType::Boolean,
            EntryValue::Double(_) => EntryType::Double,
            EntryValue::String(_) => EntryType::String,
            EntryValue::Raw(_) => EntryType::Raw,
            EntryValue::BooleanArray(_) => EntryType::BooleanArray,
            EntryValue::DoubleArray(_) => EntryType::DoubleArray,
            EntryValue::StringArray(_) => EntryType::StringArray,
            EntryValue::RPCDefinition(_) => EntryType::RPCDefinition,
        }
    }

    /// A copy with the same content.
    pub fn deep_clone(&self) -> (r: EntryValue)
        ensures
            r@ == self@,
        decreases self,
    {
        match self {
            EntryValue::Boolean(b) => EntryValue::Boolean(*b),
            EntryValue::Double(d) => EntryValue::Double(*d),
            EntryValue::String(x) => EntryValue::String(x.clone()),
            EntryValue::Raw(x) => EntryValue::Raw(vstd::slice::slice_to_vec(x.as_slice())),
            EntryValue::BooleanArray(a) => EntryValue::BooleanArray(vstd::slice::slice_to_vec(a.as_slice())),
            EntryValue::DoubleArray(a) => EntryValue::DoubleArray(vstd::slice::slice_to_vec(a.as_slice())),
            EntryValue::StringArray(a) => EntryValue::StringArray(clone_strings(a)),
            EntryValue::RPCDefinition(d) => EntryValue::RPCDefinition(d.deep_clone()),
        }
    }

    /// Appends the value's bytes (without a type tag).
    pub fn encode(&self, out: &mut Vec<u8>)
        requires
            value_valid(self@),
        ensures
            final(out)@ == old(out)@ + value_bytes(self@),
        decreases self,
    {
        let ghost start = out@;
        match self {
            EntryValue::Boolean(b) => {
                out.push(if *b { 1u8 } else { 0u8 });
            },
            EntryValue::Double(d) => encode_double(*d, out),
            EntryValue::String(x) => encode_text(x, out),
            EntryValue::Raw(x) => encode_raw(x, out),
            EntryValue::BooleanArray(a) => {
                out.push(a.len() as u8);
                let mut i: usize = 0;
                while i < a.len()
                    invariant
                        i <= a@.len(),
                        out@ == start + seq![a@.len() as u8] + a@.subrange(0, i as int).map_values(
                            |b: bool| bool_byte(b),
                        ),
                    decreases a@.len() - i,
                {
                    out.push(if a[i] { 1u8 } else { 0u8 });
                    i = i + 1;
                    assert(out@ =~= start + seq![a@.len() as u8] + a@.subrange(0, i as int).map_values(
                        |b: bool| bool_byte(b),
                    ));
                }
                assert(a@.subrange(0, i as int) =~= a@);
            },
            EntryValue::DoubleArray(a) => {
                out.push(a.len() as u8);
                let mut i: usize = 0;
                while i < a.len()
                    invariant
                        i <= a@.len(),
                        out@ == start + seq![a@.len() as u8] + doubles_body(a@.subrange(0, i as int)),
                    decreases a@.len() - i,
                {
                    encode_double(a[i], out);
                    assert(a@.subrange(0, i + 1).drop_last() =~= a@.subrange(0, i as int));
                    i = i + 1;
                }
                assert(a@.subrange(0, i as int) =~= a@);
            },
            EntryValue::StringArray(a) => {
                out.push(a.len() as u8);
                let ghost m = strings_model(a@);
                let mut i: usize = 0;
                while i < a.len()
                    invariant
                        i <= a@.len(),
                        m == strings_model(a@),
                        out@ == start + seq![a@.len() as u8] + texts_body(m.subrange(0, i as int)),
                    decreases a@.len() - i,
                {
                    encode_text(&a[i], out);
                    assert(m.subrange(0, i + 1).drop_last() =~= m.subrange(0, i as int));
                    i = i + 1;
                }
                assert(m.subrange(0, i as int) =~= m);
            },
            EntryValue::RPCDefinition(d) => d.encode(out),
        }
    }
}

pub(crate) fn clone_strings(a: &Vec<String>) -> (r: Vec<String>)
    ensures
        strings_model(r@) == strings_model(a@),
{
    let mut r: Vec<String> = Vec::new();
    let mut i: usize = 0;
    while i < a.len()
        invariant
            i <= a@.len(),
            r@.len() == i,
            forall|j: int| 0 <= j < i ==> #[trigger] r@[j]@ == a@[j]@,
        decreases a@.len() - i,
    {
        r.push(a[i].clone());
        i = i + 1;
    }
    assert(strings_model(r@) =~= strings_model(a@));
    r
}

pub(crate) fn decode_type_at(buf: &[u8], pos: usize) -> (r: Result<(EntryType, usize), DecodeError>)
    requires
        pos <= buf@.len(),
    ensures
        match parse_type(buf@, pos as int) {
            Ok((t, e)) => r is Ok && (r->Ok_0).0 == t && (r->Ok_0).1 == e && pos < e <= buf@.len(),
            Err(x) => r == Err::<(EntryType, usize), DecodeError>(x),
        },
{
    if pos >= buf.len() {
        return Err(DecodeError::TruncatedInput);
    }
    match EntryType::from_tag(buf[pos]) {
        Some(t) => Ok((t, pos + 1)),
        None => Err(DecodeError::UnknownTypeTag),
    }
}

fn decode_doubles_at(buf: &[u8], pos: usize, n: u8) -> (r: Result<(Vec<u64>, usize), DecodeError>)
    requires
        pos <= buf@.len(),
    ensures
        match parse_doubles(buf@, pos as int, n as nat) {
            Ok((a, e)) => r is Ok && (r->Ok_0).0@ == a && (r->Ok_0).1 == e && pos <= e <= buf@.len(),
            Err(x) => r matches Err(y) && y == x,
        },
    decreases n,
{
    if n == 0 {
        return Ok((Vec::new(), pos));
    }
    match decode_doubles_at(buf, pos, n - 1) {
        Err(e) => Err(e),
        Ok((mut a, p)) => match decode_double_at(buf, p) {
            Err(e) => Err(e),
            Ok((d, e)) => {
                a.push(d);
                Ok((a, e))
            },
        },
    }
}

fn decode_texts_at(buf: &[u8], pos: usize, n: u8) -> (r: Result<(Vec<String>, usize), DecodeError>)
    requires
        pos <= buf@.len(),
    ensures
        match parse_texts(buf@, pos as int, n as nat) {
            Ok((a, e)) => r is Ok && strings_model((r->Ok_0).0@) == a && (r->Ok_0).1 == e && pos <= e <= buf@.len(),
            Err(x) => r matches Err(y) && y == x,
        },
    decreases n,
{
    if n == 0 {
        let v: Vec<String> = Vec::new();
        assert(strings_model(v@) =~= Seq::<Seq<char>>::empty());
        return Ok((v, pos));
    }
    match decode_texts_at(buf, pos, n - 1) {
        Err(e) => Err(e),
        Ok((mut a, p)) => match decode_text_at(buf, p) {
            Err(e) => Err(e),
            Ok((t, e)) => {
                let ghost old_a = a@;
                a.push(t);
                assert(strings_model(a@) =~= strings_model(old_a).push(t@));
                Ok((a, e))
            },
        },
    }
}

fn decode_bools_at(buf: &[u8], pos: usize, n: u8) -> (r: Vec<bool>)
    requires
        pos + n <= buf@.len(),
    ensures
        r@ == buf@.subrange(pos as int, pos + n).map_values(|b: u8| b != 0),
{
    let mut a: Vec<bool> = Vec::new();
    let mut i: usize = 0;
    let len = buf.len();
    while i < n as usize
        invariant
            i <= n,
            len == buf@.len(),
            pos + n <= buf@.len(),
            a@ == buf@.subrange(pos as int, pos + i).map_values(|b: u8| b != 0),
        decreases n - i,
    {
        assert(pos + i < buf@.len());
        a.push(buf[pos + i] != 0);
        i = i + 1;
        assert(a@ =~= buf@.subrange(pos as int, pos + i).map_values(|b: u8| b != 0));
    }
    a
}

#[verifier::spinoff_prover]
#[verifier::rlimit(60)]
pub(crate) fn decode_value_at(t: EntryType, buf: &[u8], pos: usize) -> (r: Result<(EntryValue, usize), DecodeError>)
    requires
        pos <= buf@.len(),
    ensures
        match parse_value(t, buf@, pos as int) {
            Ok((m, e)) => r is Ok && (r->Ok_0).0@ == m && (r->Ok_0).1 == e && pos < e <= buf@.len(),
            Err(x) => r matches Err(y) && y == x,
        },
    decreases buf@.len(), 1nat,
{
    match t {
        EntryType::Boolean => {
            if pos >= buf.len() {
                return Err(DecodeError::TruncatedInput);
            }
            Ok((EntryValue::Boolean(buf[pos] != 0), pos + 1))
        },
        EntryType::Double => match decode_double_at(buf, pos) {
            Err(e) => Err(e),
            Ok((d, e)) => Ok((EntryValue::Double(d), e)),
        },
        EntryType::String => match decode_text_at(buf, pos) {
            Err(e) => Err(e),
            Ok((x, e)) => Ok((EntryValue::String(x), e)),
        },
        EntryType::Raw => match decode_raw_at(buf, pos) {
            Err(e) => Err(e),
            Ok((x, e)) => Ok((EntryValue::Raw(x), e)),
        },
        EntryType::BooleanArray => {
            if pos >= buf.len() || buf[pos] as usize > buf.len() - pos - 1 {
                return Err(DecodeError::TruncatedInput);
            }
            let n = buf[pos];
            let a = decode_bools_at(buf, pos + 1, n);
            Ok((EntryValue::BooleanArray(a), pos + 1 + n as usize))
        },
        EntryType::DoubleArray => {
            if pos >= buf.len() {
                return Err(DecodeError::TruncatedInput);
            }
            match decode_doubles_at(buf, pos + 1, buf[pos]) {
                Err(e) => Err(e),
                Ok((a, e)) => Ok((EntryValue::DoubleArray(a), e)),
            }
        },
        EntryType::StringArray => {
            if pos >= buf.len() {
                return Err(DecodeError::TruncatedInput);
            }
            match decode_texts_at(buf, pos + 1, buf[pos]) {
                Err(e) => Err(e),
                Ok((a, e)) => Ok((EntryValue::StringArray(a), e)),
            }
        },
        EntryType::RPCDefinition => match decode_definition_field_at(buf, pos) {
            Err(e) => Err(e),
            Ok((d, e)) => Ok((EntryValue::RPCDefinition(d), e)),
        },
    }
}

} // verus!
