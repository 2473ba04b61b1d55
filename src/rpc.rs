use vstd::prelude::*;

use crate::codec::{append_bytes, decode_text_at, encode_text, parse_text, text_bytes};
use crate::error::DecodeError;
use crate::value::{
    model_type, parse_type, parse_value, text_valid, type_tag, value_bytes, value_valid,
    decode_type_at, decode_value_at, definition_model, parameter_model, parameters_model,
    result_model, results_model, DefinitionModel, EntryType, EntryValue, ParameterModel,
    ResultModel,
};
use crate::varint::{decode_varint_at, encode_varint, varint_bytes, lemma_varint_decode_len, varint_decode};

verus! {

/// A remote procedure's description. Version `0` carries nothing; any other
/// version is read as the structured form and stored as version `1`.
#[derive(Debug)]
pub struct RPCDefinitionData {
    pub version: u8,
    pub procedure_name: String,
    pub parameters: Vec<Parameter>,
    pub results: Vec<RpcResult>,
}

/// One declared parameter, with its default value.
#[derive(Debug)]
pub struct Parameter {
    pub parameter_type: EntryType,
    pub parameter_name: String,
    pub parameter_default: EntryValue,
}

/// One declared result.
#[derive(Debug)]
pub struct RpcResult {
    pub result_type: EntryType,
    pub result_name: String,
}

/// The definition that version `0` stands for: no name, no parameters, no
/// results.
pub open spec fn empty_definition() -> DefinitionModel {
    DefinitionModel { version: 0, name: Seq::empty(), parameters: Seq::empty(), results: Seq::empty() }
}

pub open spec fn parameter_bytes(p: ParameterModel) -> Seq<u8>
    decreases p,
{
    seq![type_tag(p.ty)] + text_bytes(p.name) + value_bytes(p.default)
}

pub open spec fn parameters_bytes(ps: Seq<ParameterModel>) -> Seq<u8>
    decreases ps,
{
    if ps.len() == 0 {
        Seq::empty()
    } else {
        parameters_bytes(ps.drop_last()) + parameter_bytes(ps.last())
    }
}

pub open spec fn result_bytes(r: ResultModel) -> Seq<u8> {
    seq![type_tag(r.ty)] + text_bytes(r.name)
}

pub open spec fn results_bytes(rs: Seq<ResultModel>) -> Seq<u8>
    decreases rs.len(),
{
    if rs.len() == 0 {
        Seq::empty()
    } else {
        results_bytes(rs.drop_last()) + result_bytes(rs.last())
    }
}

/// The blob inside a definition's length prefix: the version byte `0` alone,
/// or version `1`, the name, the counted parameters and the counted results.
pub open spec fn definition_blob(d: DefinitionModel) -> Seq<u8>
    decreases d,
{
    if d.version == 0 {
        seq![0u8]
    } else {
        seq![1u8] + text_bytes(d.name) + seq![d.parameters.len() as u8] + parameters_bytes(
            d.parameters,
        ) + seq![d.results.len() as u8] + results_bytes(d.results)
    }
}

pub open spec fn parameter_valid(p: ParameterModel) -> bool
    decreases p,
{
    &&& model_type(p.default) == p.ty
    &&& text_valid(p.name)
    &&& value_valid(p.default)
}

pub open spec fn parameters_valid(ps: Seq<ParameterModel>) -> bool
    decreases ps,
{
    ps.len() == 0 || (parameters_valid(ps.drop_last()) && parameter_valid(ps.last()))
}

/// A definition that encodes and decodes back to itself: version `0` with
/// nothing else, or version `1` whose counts fit a byte and whose parameter
/// defaults have their declared kinds.
pub open spec fn definition_valid(d: DefinitionModel) -> bool
    decreases d,
{
    &&& definition_blob(d).len() <= u64::MAX
    &&& (d.version == 0 ==> d == empty_definition())
    &&& (d.version != 0 ==> {
        &&& d.version == 1
        &&& text_valid(d.name)
        &&& d.parameters.len() <= 255
        &&& d.results.len() <= 255
        &&& parameters_valid(d.parameters)
        &&& forall|i: int| 0 <= i < d.results.len() ==> text_valid(#[trigger] d.results[i].name)
    })
}

/// Reads a result record at `pos`.
pub open spec fn parse_result(b: Seq<u8>, pos: int) -> Result<(ResultModel, int), DecodeError> {
    match parse_type(b, pos) {
        Err(e) => Err(e),
        Ok((t, p1)) => match parse_text(b, p1) {
            Err(e) => Err(e),
            Ok((name, p2)) => Ok((ResultModel { ty: t, name }, p2)),
        },
    }
}

/// Reads `n` result records from `pos`.
pub open spec fn parse_results(b: Seq<u8>, pos: int, n: nat) -> Result<(Seq<ResultModel>, int), DecodeError>
    decreases n,
{
    if n == 0 {
        Ok((Seq::empty(), pos))
    } else {
        match parse_results(b, pos, (n - 1) as nat) {
            Err(e) => Err(e),
            Ok((rs, p)) => match parse_result(b, p) {
                Err(e) => Err(e),
                Ok((r, e)) => Ok((rs.push(r), e)),
            },
        }
    }
}

/// Reads a parameter record at `pos`: tag, name, then a default of that kind.
pub open spec fn parse_parameter(b: Seq<u8>, pos: int) -> Result<(ParameterModel, int), DecodeError>
    decreases b.len(), 2nat, 0nat,
{
    match parse_type(b, pos) {
        Err(e) => Err(e),
        Ok((t, p1)) => match parse_text(b, p1) {
            Err(e) => Err(e),
            Ok((name, p2)) => match parse_value(t, b, p2) {
                Err(e) => Err(e),
                Ok((v, p3)) => Ok((ParameterModel { ty: t, name, default: v }, p3)),
            },
        },
    }
}

/// Reads `n` parameter records from `pos`.
pub open spec fn parse_parameters(b: Seq<u8>, pos: int, n: nat) -> Result<(Seq<ParameterModel>, int), DecodeError>
    decreases b.len(), 3nat, n,
{
    if n == 0 {
        Ok((Seq::empty(), pos))
    } else {
        match parse_parameters(b, pos, (n - 1) as nat) {
            Err(e) => Err(e),
            Ok((ps, p)) => match parse_parameter(b, p) {
                Err(e) => Err(e),
                Ok((q, e)) => Ok((ps.push(q), e)),
            },
        }
    }
}

/// Reads a whole definition blob. Bytes after the last result are ignored;
/// any non-zero version is read as version `1`.
pub open spec fn parse_definition(b: Seq<u8>) -> Result<DefinitionModel, DecodeError>
    decreases b.len(), 4nat, 0nat,
{
    if b.len() == 0 {
        Err(DecodeError::TruncatedInput)
    } else if b[0] == 0 {
        Ok(empty_definition())
    } else {
        match parse_text(b, 1) {
            Err(e) => Err(e),
            Ok((name, p1)) => if p1 < 0 || p1 >= b.len() {
                Err(DecodeError::TruncatedInput)
            } else {
                match parse_parameters(b, p1 + 1, b[p1] as nat) {
                    Err(e) => Err(e),
                    Ok((ps, p2)) => if p2 < 0 || p2 >= b.len() {
                        Err(DecodeError::TruncatedInput)
                    } else {
                        match parse_results(b, p2 + 1, b[p2] as nat) {
                            Err(e) => Err(e),
                            Ok((rs, _)) => Ok(
                                DefinitionModel { version: 1, name, parameters: ps, results: rs },
                            ),
                        }
                    },
                }
            },
        }
    }
}

/// Reads a length-prefixed definition at `pos`. The position past it is
/// always the end of the declared length, whatever the blob holds.
pub open spec fn parse_definition_field(s: Seq<u8>, pos: int) -> Result<(DefinitionModel, int), DecodeError>
    decreases s.len(), 0nat, 0nat,
    via parse_definition_field_decreases
{
    if pos < 0 || pos > s.len() {
        Err(DecodeError::TruncatedInput)
    } else {
        match varint_decode(s.subrange(pos, s.len() as int)) {
            None => Err(DecodeError::TruncatedInput),
            Some((l, k)) => if l > s.len() - (pos + k) {
                Err(DecodeError::TruncatedInput)
            } else {
                match parse_definition(s.subrange(pos + k, pos + k + l)) {
                    Err(e) => Err(e),
                    Ok(d) => Ok((d, pos + k + l)),
                }
            },
        }
    }
}

#[via_fn]
proof fn parse_definition_field_decreases(s: Seq<u8>, pos: int) {
    if 0 <= pos <= s.len() {
        lemma_varint_decode_len(s.subrange(pos, s.len() as int));
    }
}

impl View for RPCDefinitionData {
    type V = DefinitionModel;

    open spec fn view(&self) -> DefinitionModel {
        definition_model(*self)
    }
}

impl View for Parameter {
    type V = ParameterModel;

    open spec fn view(&self) -> ParameterModel {
        parameter_model(*self)
    }
}

impl View for RpcResult {
    type V = ResultModel;

    open spec fn view(&self) -> ResultModel {
        result_model(*self)
    }
}

pub(crate) proof fn lemma_parameters_model(ps: Seq<Parameter>)
    ensures
        parameters_model(ps).len() == ps.len(),
        forall|i: int| 0 <= i < ps.len() ==> #[trigger] parameters_model(ps)[i] == parameter_model(ps[i]),
    decreases ps.len(),
{
    if ps.len() > 0 {
        lemma_parameters_model(ps.drop_last());
    }
}

proof fn lemma_parameters_valid(ps: Seq<ParameterModel>)
    requires
        parameters_valid(ps),
    ensures
        forall|i: int| 0 <= i < ps.len() ==> parameter_valid(#[trigger] ps[i]),
    decreases ps.len(),
{
    if ps.len() > 0 {
        lemma_parameters_valid(ps.drop_last());
        assert forall|i: int| 0 <= i < ps.len() implies parameter_valid(#[trigger] ps[i]) by {
            if i < ps.len() - 1 {
                assert(ps[i] == ps.drop_last()[i]);
            }
        }
    }
}

impl RpcResult {
    /// A copy with the same content.
    pub fn deep_clone(&self) -> (r: RpcResult)
        ensures
            r@ == self@,
    {
        RpcResult { result_type: self.result_type, result_name: self.result_name.clone() }
    }

    /// Appends the record: type tag, then name.
    pub fn encode(&self, out: &mut Vec<u8>)
        ensures
            final(out)@ == old(out)@ + result_bytes(self@),
    {
        self.result_type.encode(out);
        encode_text(&self.result_name, out);
        assert(final(out)@ =~= old(out)@ + result_bytes(self@));
    }
}

impl Parameter {
    /// A copy with the same content.
    pub fn deep_clone(&self) -> (r: Parameter)
        ensures
            r@ == self@,
        decreases self,
    {
        Parameter {
            parameter_type: self.parameter_type,
            parameter_name: self.parameter_name.clone(),
            parameter_default: self.parameter_default.deep_clone(),
        }
    }

    /// Appends the record: type tag, name, then the default value.
    pub fn encode(&self, out: &mut Vec<u8>)
        requires
            parameter_valid(self@),
        ensures
            final(out)@ == old(out)@ + parameter_bytes(self@),
        decreases self,
    {
        self.parameter_type.encode(out);
        encode_text(&self.parameter_name, out);
        self.parameter_default.encode(out);
        assert(final(out)@ =~= old(out)@ + parameter_bytes(self@));
    }
}

impl RPCDefinitionData {
    /// The version `0` definition: no name, no parameters, no results.
    pub fn empty() -> (r: RPCDefinitionData)
        ensures
            r@ == empty_definition(),
    {
        let d = RPCDefinitionData {
            version: 0,
            procedure_name: String::new(),
            parameters: Vec::new(),
            results: Vec::new(),
        };
        assert(d@.name =~= Seq::<char>::empty());
        assert(d@.results =~= Seq::<ResultModel>::empty());
        d
    }

    /// A structured (version `1`) definition.
    pub fn new(procedure_name: String, parameters: Vec<Parameter>, results: Vec<RpcResult>) -> (r: RPCDefinitionData)
        ensures
            r@ == (DefinitionModel {
                version: 1,
                name: procedure_name@,
                parameters: parameters_model(parameters@),
                results: results_model(results@),
            }),
    {
        RPCDefinitionData { version: 1, procedure_name, parameters, results }
    }

    /// A copy with the same content.
    pub fn deep_clone(&self) -> (r: RPCDefinitionData)
        ensures
            r@ == self@,
        decreases self,
    {
        let mut ps: Vec<Parameter> = Vec::new();
        let mut i: usize = 0;
        proof { lemma_parameters_model(self.parameters@); }
        while i < self.parameters.len()
            invariant
                i <= self.parameters@.len(),
                parameters_model(ps@) == parameters_model(self.parameters@.subrange(0, i as int)),
            decreases self.parameters@.len() - i,
        {
            proof {
                assert(decreases_to!(self.parameters => self.parameters[i as int])) by {
                    vstd::std_specs::vec::axiom_vec_index_decreases(self.parameters, i as int);
                }
            }
            let p = self.parameters[i].deep_clone();
            let ghost before = ps@;
            ps.push(p);
            assert(ps@.drop_last() =~= before);
            assert(self.parameters@.subrange(0, i + 1).drop_last() =~= self.parameters@.subrange(0, i as int));
            i = i + 1;
        }
        assert(self.parameters@.subrange(0, i as int) =~= self.parameters@);
        let mut rs: Vec<RpcResult> = Vec::new();
        let mut k: usize = 0;
        while k < self.results.len()
            invariant
                k <= self.results@.len(),
                rs@.len() == k,
                forall|j: int| 0 <= j < k ==> #[trigger] result_model(rs@[j]) == result_model(self.results@[j]),
            decreases self.results@.len() - k,
        {
            let x = self.results[k].deep_clone();
            rs.push(x);
            k = k + 1;
        }
        assert(results_model(rs@) =~= results_model(self.results@));
        RPCDefinitionData {
            version: self.version,
            procedure_name: self.procedure_name.clone(),
            parameters: ps,
            results: rs,
        }
    }

    /// Appends the definition: the varint length of its blob, then the blob.
    pub fn encode(&self, out: &mut Vec<u8>)
        requires
            definition_valid(self@),
        ensures
            final(out)@ == old(out)@ + varint_bytes(definition_blob(self@).len()) + definition_blob(self@),
        decreases self,
    {
        let mut blob: Vec<u8> = Vec::new();
        if self.version == 0 {
            blob.push(0);
            assert(blob@ =~= definition_blob(self@));
        } else {
            blob.push(1);
            encode_text(&self.procedure_name, &mut blob);
            blob.push(self.parameters.len() as u8);
            let ghost head = blob@;
            let ghost pm = self@.parameters;
            proof {
                lemma_parameters_model(self.parameters@);
                lemma_parameters_valid(pm);
            }
            let mut i: usize = 0;
            while i < self.parameters.len()
                invariant
                    i <= self.parameters@.len(),
                    pm == parameters_model(self.parameters@),
                    pm.len() == self.parameters@.len(),
                    forall|j: int| 0 <= j < pm.len() ==> #[trigger] pm[j] == parameter_model(self.parameters@[j]),
                    forall|j: int| 0 <= j < pm.len() ==> parameter_valid(#[trigger] pm[j]),
                    blob@ == head + parameters_bytes(pm.subrange(0, i as int)),
                decreases self.parameters@.len() - i,
            {
                proof {
                    assert(decreases_to!(self.parameters => self.parameters[i as int])) by {
                        vstd::std_specs::vec::axiom_vec_index_decreases(self.parameters, i as int);
                    }
                    assert(pm[i as int] == parameter_model(self.parameters@[i as int]));
                }
                self.parameters[i].encode(&mut blob);
                assert(pm.subrange(0, i + 1).drop_last() =~= pm.subrange(0, i as int));
                i = i + 1;
            }
            assert(pm.subrange(0, i as int) =~= pm);
            blob.push(self.results.len() as u8);
            let ghost head2 = blob@;
            let ghost rm = self@.results;
            let mut k: usize = 0;
            while k < self.results.len()
                invariant
                    k <= self.results@.len(),
                    rm == results_model(self.results@),
                    blob@ == head2 + results_bytes(rm.subrange(0, k as int)),
                decreases self.results@.len() - k,
            {
                self.results[k].encode(&mut blob);
                assert(rm.subrange(0, k + 1).drop_last() =~= rm.subrange(0, k as int));
                k = k + 1;
            }
            assert(rm.subrange(0, k as int) =~= rm);
            assert(blob@ =~= definition_blob(self@));
        }
        encode_varint(blob.len() as u64, out);
        append_bytes(out, blob.as_slice());
    }
}

fn decode_result_at(b: &[u8], pos: usize) -> (r: Result<(RpcResult, usize), DecodeError>)
    requires
        pos <= b@.len(),
    ensures
        match parse_result(b@, pos as int) {
            Ok((m, e)) => r is Ok && (r->Ok_0).0@ == m && (r->Ok_0).1 == e && pos < e <= b@.len(),
            Err(x) => r matches Err(y) && y == x,
        },
{
    match decode_type_at(b, pos) {
        Err(e) => Err(e),
        Ok((t, p1)) => match decode_text_at(b, p1) {
            Err(e) => Err(e),
            Ok((name, p2)) => Ok((RpcResult { result_type: t, result_name: name }, p2)),
        },
    }
}

fn decode_results_at(b: &[u8], pos: usize, n: u8) -> (r: Result<(Vec<RpcResult>, usize), DecodeError>)
    requires
        pos <= b@.len(),
    ensures
        match parse_results(b@, pos as int, n as nat) {
            Ok((rs, e)) => r is Ok && results_model((r->Ok_0).0@) == rs && (r->Ok_0).1 == e && pos <= e <= b@.len(),
            Err(x) => r matches Err(y) && y == x,
        },
    decreases n,
{
    if n == 0 {
        let v: Vec<RpcResult> = Vec::new();
        assert(results_model(v@) =~= Seq::<ResultModel>::empty());
        return Ok((v, pos));
    }
    match decode_results_at(b, pos, n - 1) {
        Err(e) => Err(e),
        Ok((mut a, p)) => match decode_result_at(b, p) {
            Err(e) => Err(e),
            Ok((x, e)) => {
                let ghost old_a = a@;
                a.push(x);
                assert(results_model(a@) =~= results_model(old_a).push(x@));
                Ok((a, e))
            },
        },
    }
}

fn decode_parameter_at(b: &[u8], pos: usize) -> (r: Result<(Parameter, usize), DecodeError>)
    requires
        pos <= b@.len(),
    ensures
        match parse_parameter(b@, pos as int) {
            Ok((m, e)) => r is Ok && (r->Ok_0).0@ == m && (r->Ok_0).1 == e && pos < e <= b@.len(),
            Err(x) => r matches Err(y) && y == x,
        },
    decreases b@.len(), 2nat,
{
    match decode_type_at(b, pos) {
        Err(e) => Err(e),
        Ok((t, p1)) => match decode_text_at(b, p1) {
            Err(e) => Err(e),
            Ok((name, p2)) => match decode_value_at(t, b, p2) {
                Err(e) => Err(e),
                Ok((v, p3)) => Ok(
                    (Parameter { parameter_type: t, parameter_name: name, parameter_default: v }, p3),
                ),
            },
        },
    }
}

fn decode_parameters_at(b: &[u8], pos: usize, n: u8) -> (r: Result<(Vec<Parameter>, usize), DecodeError>)
    requires
        pos <= b@.len(),
    ensures
        match parse_parameters(b@, pos as int, n as nat) {
            Ok((ps, e)) => r is Ok && parameters_model((r->Ok_0).0@) == ps && (r->Ok_0).1 == e && pos <= e <= b@.len(),
            Err(x) => r matches Err(y) && y == x,
        },
    decreases b@.len(), 3nat, n,
{
    if n == 0 {
        let v: Vec<Parameter> = Vec::new();
        return Ok((v, pos));
    }
    match decode_parameters_at(b, pos, n - 1) {
        Err(e) => Err(e),
        Ok((mut a, p)) => match decode_parameter_at(b, p) {
            Err(e) => Err(e),
            Ok((x, e)) => {
                let ghost old_a = a@;
                a.push(x);
                assert(a@.drop_last() =~= old_a);
                Ok((a, e))
            },
        },
    }
}

fn decode_definition_blob(b: &[u8]) -> (r: Result<RPCDefinitionData, DecodeError>)
    ensures
        match parse_definition(b@) {
            Ok(d) => r is Ok && (r->Ok_0)@ == d,
            Err(x) => r matches Err(y) && y == x,
        },
    decreases b@.len(), 4nat,
{
    if b.len() == 0 {
        return Err(DecodeError::TruncatedInput);
    }
    if b[0] == 0 {
        let d = RPCDefinitionData {
            version: 0,
            procedure_name: String::new(),
            parameters: Vec::new(),
            results: Vec::new(),
        };
        assert(d@.name =~= Seq::<char>::empty());
        assert(d@.results =~= Seq::<ResultModel>::empty());
        return Ok(d);
    }
    match decode_text_at(b, 1) {
        Err(e) => Err(e),
        Ok((name, p1)) => {
            if p1 >= b.len() {
                return Err(DecodeError::TruncatedInput);
            }
            match decode_parameters_at(b, p1 + 1, b[p1]) {
                Err(e) => Err(e),
                Ok((ps, p2)) => {
                    if p2 >= b.len() {
                        return Err(DecodeError::TruncatedInput);
                    }
                    match decode_results_at(b, p2 + 1, b[p2]) {
                        Err(e) => Err(e),
                        Ok((rs, _)) => {
                            let d = RPCDefinitionData {
                                version: 1,
                                procedure_name: name,
                                parameters: ps,
                                results: rs,
                            };
                            Ok(d)
                        },
                    }
                },
            }
        },
    }
}

pub(crate) fn decode_definition_field_at(buf: &[u8], pos: usize) -> (r: Result<(RPCDefinitionData, usize), DecodeError>)
    requires
        pos <= buf@.len(),
    ensures
        match parse_definition_field(buf@, pos as int) {
            Ok((d, e)) => r is Ok && (r->Ok_0).0@ == d && (r->Ok_0).1 == e && pos < e <= buf@.len(),
            Err(x) => r matches Err(y) && y == x,
        },
    decreases buf@.len(), 0nat,
{
    match decode_varint_at(buf, pos) {
        Err(e) => Err(e),
        Ok((l, p1)) => {
            proof { lemma_varint_decode_len(buf@.subrange(pos as int, buf@.len() as int)); }
            if l > (buf.len() - p1) as u64 {
                return Err(DecodeError::TruncatedInput);
            }
            let end = p1 + l as usize;
            let sub = vstd::slice::slice_subrange(buf, p1, end);
            match decode_definition_blob(sub) {
                Err(e) => Err(e),
                Ok(d) => Ok((d, end)),
            }
        },
    }
}

impl RPCDefinitionData {
    /// Reads a length-prefixed definition from the front of `buf`. On
    /// success the count is the prefix plus the declared length, whatever
    /// the blob holds.
    pub fn decode(buf: &[u8]) -> (r: Result<(RPCDefinitionData, usize), DecodeError>)
        ensures
            match parse_definition_field(buf@, 0) {
                Ok((d, e)) => r is Ok && (r->Ok_0).0@ == d && (r->Ok_0).1 == e,
                Err(x) => r matches Err(y) && y == x,
            },
    {
        decode_definition_field_at(buf, 0)
    }
}

impl Parameter {
    /// Reads a parameter record from the front of `buf`.
    pub fn decode(buf: &[u8]) -> (r: Result<(Parameter, usize), DecodeError>)
        ensures
            match parse_parameter(buf@, 0) {
                Ok((m, e)) => r is Ok && (r->Ok_0).0@ == m && (r->Ok_0).1 == e,
                Err(x) => r matches Err(y) && y == x,
            },
    {
        decode_parameter_at(buf, 0)
    }
}

impl RpcResult {
    /// Reads a result record from the front of `buf`.
    pub fn decode(buf: &[u8]) -> (r: Result<(RpcResult, usize), DecodeError>)
        ensures
            match parse_result(buf@, 0) {
                Ok((m, e)) => r is Ok && (r->Ok_0).0@ == m && (r->Ok_0).1 == e,
                Err(x) => r matches Err(y) && y == x,
            },
    {
        decode_result_at(buf, 0)
    }
}

} // verus!
