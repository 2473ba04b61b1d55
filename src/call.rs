use vstd::prelude::*;

use crate::error::DecodeError;
use crate::rpc::{lemma_parameters_model, RPCDefinitionData};
use crate::value::{
    decode_value_at, parameter_model, parse_value, value_bytes, value_model, value_valid,
    DefinitionModel, EntryType, EntryValue, ParameterModel, ResultModel, ValueModel,
};

verus! {

/// Arguments of a call: opaque bytes for a version `0` procedure, values
/// in declared order for a version `1` one.
#[derive(Debug)]
pub enum RPCExecutionBody {
    V1(RPCV1ExecuteBody),
    V0(RPCV0ExecuteBody),
}

/// What a call returned: opaque bytes, or values in declared order.
#[derive(Debug)]
pub enum RPCResponseBody {
    V1(RPCV1ResponseBody),
    V0(RPCV0ResponseBody),
}

#[derive(Debug)]
pub struct RPCV0ResponseBody {
    pub bytes: Vec<u8>,
}

#[derive(Debug)]
pub struct RPCV1ResponseBody {
    pub results: Vec<EntryValue>,
}

#[derive(Debug)]
pub struct RPCV1ExecuteBody {
    pub parameters: Vec<EntryValue>,
}

#[derive(Debug)]
pub struct RPCV0ExecuteBody {
    pub bytes: Vec<u8>,
}

/// The content of an execution or response body.
pub enum BodyModel {
    V0(Seq<u8>),
    V1(Seq<ValueModel>),
}

pub open spec fn values_model(vs: Seq<EntryValue>) -> Seq<ValueModel> {
    vs.map_values(|v: EntryValue| value_model(v))
}

impl View for RPCExecutionBody {
    type V = BodyModel;

    open spec fn view(&self) -> BodyModel {
        match self {
            RPCExecutionBody::V0(b) => BodyModel::V0(b.bytes@),
            RPCExecutionBody::V1(b) => BodyModel::V1(values_model(b.parameters@)),
        }
    }
}

impl View for RPCResponseBody {
    type V = BodyModel;

    open spec fn view(&self) -> BodyModel {
        match self {
            RPCResponseBody::V0(b) => BodyModel::V0(b.bytes@),
            RPCResponseBody::V1(b) => BodyModel::V1(values_model(b.results@)),
        }
    }
}

/// The kinds of a definition's parameters, in order.
pub open spec fn parameter_types(d: DefinitionModel) -> Seq<EntryType> {
    d.parameters.map_values(|p: ParameterModel| p.ty)
}

/// The kinds of a definition's results, in order.
pub open spec fn result_types(d: DefinitionModel) -> Seq<EntryType> {
    d.results.map_values(|r: ResultModel| r.ty)
}

/// Values one after the other, with no tags and no count.
pub open spec fn values_bytes(vs: Seq<ValueModel>) -> Seq<u8>
    decreases vs.len(),
{
    if vs.len() == 0 {
        Seq::empty()
    } else {
        values_bytes(vs.drop_last()) + value_bytes(vs.last())
    }
}

/// The bytes of a body: version `0` bytes verbatim, version `1` values in order.
pub open spec fn body_bytes(b: BodyModel) -> Seq<u8> {
    match b {
        BodyModel::V0(x) => x,
        BodyModel::V1(vs) => values_bytes(vs),
    }
}

/// Reads the first `n` values whose kinds `types` lists, from `pos`.
pub open spec fn parse_values(types: Seq<EntryType>, s: Seq<u8>, pos: int, n: nat) -> Result<(Seq<ValueModel>, int), DecodeError>
    decreases n,
{
    if n == 0 {
        Ok((Seq::empty(), pos))
    } else {
        match parse_values(types, s, pos, (n - 1) as nat) {
            Err(e) => Err(e),
            Ok((vs, p)) => match parse_value(types[n - 1], s, p) {
                Err(e) => Err(e),
                Ok((v, e)) => Ok((vs.push(v), e)),
            },
        }
    }
}

/// Reads a body against a definition: all of `s` as opaque bytes for
/// version `0`, else one value of each kind in `types`.
pub open spec fn parse_body(version: u8, types: Seq<EntryType>, s: Seq<u8>) -> Result<(BodyModel, int), DecodeError> {
    if version == 0 {
        Ok((BodyModel::V0(s), s.len() as int))
    } else {
        match parse_values(types, s, 0, types.len()) {
            Err(e) => Err(e),
            Ok((vs, e)) => Ok((BodyModel::V1(vs), e)),
        }
    }
}

fn decode_values_at(types: &Vec<EntryType>, buf: &[u8], pos: usize, n: usize) -> (r: Result<(Vec<EntryValue>, usize), DecodeError>)
    requires
        pos <= buf@.len(),
        n <= types@.len(),
    ensures
        match parse_values(types@, buf@, pos as int, n as nat) {
            Ok((vs, e)) => r is Ok && values_model((r->Ok_0).0@) == vs && (r->Ok_0).1 == e && pos <= e <= buf@.len(),
            Err(x) => r matches Err(y) && y == x,
        },
    decreases n,
{
    if n == 0 {
        let v: Vec<EntryValue> = Vec::new();
        assert(values_model(v@) =~= Seq::<ValueModel>::empty());
        return Ok((v, pos));
    }
    match decode_values_at(types, buf, pos, n - 1) {
        Err(e) => Err(e),
        Ok((mut vs, p)) => match decode_value_at(types[n - 1], buf, p) {
            Err(e) => Err(e),
            Ok((v, e)) => {
                let ghost before = vs@;
                vs.push(v);
                assert(values_model(vs@) =~= values_model(before).push(v@));
                Ok((vs, e))
            },
        },
    }
}

fn parameter_type_list(d: &RPCDefinitionData) -> (r: Vec<EntryType>)
    ensures
        r@ == parameter_types(d@),
{
    proof { lemma_parameters_model(d.parameters@); }
    let mut r: Vec<EntryType> = Vec::new();
    let mut i: usize = 0;
    while i < d.parameters.len()
        invariant
            i <= d.parameters@.len(),
            r@ == parameter_types(d@).subrange(0, i as int),
            d@.parameters.len() == d.parameters@.len(),
            forall|j: int| 0 <= j < d.parameters@.len() ==> #[trigger] d@.parameters[j] == parameter_model(d.parameters@[j]),
        decreases d.parameters@.len() - i,
    {
        assert(d@.parameters[i as int] == parameter_model(d.parameters@[i as int]));
        r.push(d.parameters[i].parameter_type);
        i = i + 1;
        assert(r@ =~= parameter_types(d@).subrange(0, i as int));
    }
    assert(parameter_types(d@).subrange(0, i as int) =~= parameter_types(d@));
    r
}

fn result_type_list(d: &RPCDefinitionData) -> (r: Vec<EntryType>)
    ensures
        r@ == result_types(d@),
{
    let mut r: Vec<EntryType> = Vec::new();
    let mut i: usize = 0;
    while i < d.results.len()
        invariant
            i <= d.results@.len(),
            r@ == result_types(d@).subrange(0, i as int),
        decreases d.results@.len() - i,
    {
        r.push(d.results[i].result_type);
        i = i + 1;
        assert(r@ =~= result_types(d@).subrange(0, i as int));
    }
    assert(result_types(d@).subrange(0, i as int) =~= result_types(d@));
    r
}

fn encode_values(vs: &Vec<EntryValue>, out: &mut Vec<u8>)
    requires
        forall|i: int| 0 <= i < vs@.len() ==> value_valid(#[trigger] vs@[i]@),
    ensures
        final(out)@ == old(out)@ + values_bytes(values_model(vs@)),
{
    let ghost start = out@;
    let ghost m = values_model(vs@);
    let mut i: usize = 0;
    while i < vs.len()
        invariant
            i <= vs@.len(),
            m == values_model(vs@),
            forall|j: int| 0 <= j < vs@.len() ==> value_valid(#[trigger] vs@[j]@),
            out@ == start + values_bytes(m.subrange(0, i as int)),
        decreases vs@.len() - i,
    {
        vs[i].encode(out);
        assert(m.subrange(0, i + 1).drop_last() =~= m.subrange(0, i as int));
        i = i + 1;
    }
    assert(m.subrange(0, i as int) =~= m);
}

impl RPCExecutionBody {
    /// Appends the body: version `0` bytes verbatim, or each argument's
    /// value bytes in order.
    pub fn encode(&self, out: &mut Vec<u8>)
        requires
            self matches RPCExecutionBody::V1(b) ==> forall|i: int|
                0 <= i < b.parameters@.len() ==> value_valid(#[trigger] b.parameters@[i]@),
        ensures
            final(out)@ == old(out)@ + body_bytes(self@),
    {
        match self {
            RPCExecutionBody::V0(b) => crate::codec::append_bytes(out, b.bytes.as_slice()),
            RPCExecutionBody::V1(b) => encode_values(&b.parameters, out),
        }
    }

    /// Reads the arguments of a call to the procedure `definition`
    /// describes; version `0` takes the whole buffer.
    pub fn decode(buf: &[u8], definition: &RPCDefinitionData) -> (r: Result<(RPCExecutionBody, usize), DecodeError>)
        ensures
            match parse_body(definition@.version, parameter_types(definition@), buf@) {
                Ok((m, e)) => r is Ok && (r->Ok_0).0@ == m && (r->Ok_0).1 == e,
                Err(x) => r matches Err(y) && y == x,
            },
    {
        if definition.version == 0 {
            let b = vstd::slice::slice_to_vec(buf);
            return Ok((RPCExecutionBody::V0(RPCV0ExecuteBody { bytes: b }), buf.len()));
        }
        let types = parameter_type_list(definition);
        match decode_values_at(&types, buf, 0, types.len()) {
            Err(e) => Err(e),
            Ok((vs, e)) => Ok((RPCExecutionBody::V1(RPCV1ExecuteBody { parameters: vs }), e)),
        }
    }
}

impl RPCResponseBody {
    /// Reads what a call to the procedure `definition` describes returned:
    /// version `0` takes the whole buffer as opaque bytes; otherwise one
    /// value of each declared result kind, in order.
    pub fn decode(buf: &[u8], definition: &RPCDefinitionData) -> (r: Result<(RPCResponseBody, usize), DecodeError>)
        ensures
            match parse_body(definition@.version, result_types(definition@), buf@) {
                Ok((m, e)) => r is Ok && (r->Ok_0).0@ == m && (r->Ok_0).1 == e,
                Err(x) => r matches Err(y) && y == x,
            },
    {
        if definition.version == 0 {
            let b = vstd::slice::slice_to_vec(buf);
            return Ok((RPCResponseBody::V0(RPCV0ResponseBody { bytes: b }), buf.len()));
        }
        let types = result_type_list(definition);
        match decode_values_at(&types, buf, 0, types.len()) {
            Err(e) => Err(e),
            Ok((vs, e)) => Ok((RPCResponseBody::V1(RPCV1ResponseBody { results: vs }), e)),
        }
    }

    /// Appends the body: version `0` bytes verbatim, or each result's value
    /// bytes in order.
    pub fn encode(&self, out: &mut Vec<u8>)
        requires
            self matches RPCResponseBody::V1(b) ==> forall|i: int|
                0 <= i < b.results@.len() ==> value_valid(#[trigger] b.results@[i]@),
        ensures
            final(out)@ == old(out)@ + body_bytes(self@),
    {
        match self {
            RPCResponseBody::V0(b) => crate::codec::append_bytes(out, b.bytes.as_slice()),
            RPCResponseBody::V1(b) => encode_values(&b.results, out),
        }
    }
}

} // verus!
