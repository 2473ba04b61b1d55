use vstd::prelude::*;

use crate::codec::{
    parse_double, parse_raw, parse_text,
    double_bytes, lemma_double_round_trip, lemma_raw_round_trip, lemma_text_round_trip, raw_bytes,
    text_bytes,
};
use crate::error::DecodeError;
use crate::rpc::{
    definition_blob, definition_valid, empty_definition, parameter_bytes, parameter_valid,
    parameters_bytes, parameters_valid, parse_definition, parse_definition_field,
    parse_parameter, parse_parameters, parse_results, result_bytes, results_bytes,
};
use crate::value::{
    bool_byte, doubles_body, model_type, parse_doubles, parse_texts, parse_type, parse_value,
    tag_type, text_valid, texts_body, type_tag, value_bytes, value_valid, DefinitionModel,
    EntryType, ParameterModel, ResultModel, ValueModel,
};
use crate::varint::{lemma_varint_round_trip, varint_bytes, varint_decode};

verus! {

/// Where `a + b` stands in `s` at `pos`, `a` stands at `pos` and `b` right
/// after it.
proof fn lemma_split(s: Seq<u8>, pos: int, a: Seq<u8>, b: Seq<u8>)
    requires
        0 <= pos,
        pos + a.len() + b.len() <= s.len(),
        s.subrange(pos, pos + a.len() + b.len()) == a + b,
    ensures
        s.subrange(pos, pos + a.len()) == a,
        s.subrange(pos + a.len(), pos + a.len() + b.len()) == b,
{
    assert(s.subrange(pos, pos + a.len()) =~= (a + b).subrange(0, a.len() as int));
    assert(s.subrange(pos + a.len(), pos + a.len() + b.len()) =~= (a + b).subrange(
        a.len() as int,
        (a.len() + b.len()) as int,
    ));
}

/// Each kind's tag names that kind.
pub proof fn lemma_tag_round_trip(t: EntryType)
    ensures
        tag_type(type_tag(t)) == Some(t),
{
}

proof fn lemma_type_round_trip(t: EntryType, s: Seq<u8>, pos: int)
    requires
        0 <= pos,
        pos + 1 <= s.len(),
        s.subrange(pos, pos + 1) == seq![type_tag(t)],
    ensures
        parse_type(s, pos) == Ok::<(EntryType, int), DecodeError>((t, pos + 1)),
{
    assert(s[pos] == s.subrange(pos, pos + 1)[0]);
}

proof fn lemma_bools_round_trip(a: Seq<bool>, s: Seq<u8>, pos: int)
    requires
        0 <= pos,
        a.len() <= 255,
        pos + value_bytes(ValueModel::BooleanArray(a)).len() <= s.len(),
        s.subrange(pos, pos + value_bytes(ValueModel::BooleanArray(a)).len()) == value_bytes(ValueModel::BooleanArray(a)),
    ensures
        parse_value(EntryType::BooleanArray, s, pos) == Ok::<(ValueModel, int), DecodeError>(
            (ValueModel::BooleanArray(a), pos + value_bytes(ValueModel::BooleanArray(a)).len()),
        ),
{
    let vb = value_bytes(ValueModel::BooleanArray(a));
    let body = a.map_values(|b: bool| bool_byte(b));
    lemma_split(s, pos, seq![a.len() as u8], body);
    assert(s[pos] == vb[0]);
    assert(s.subrange(pos + 1, pos + 1 + s[pos]).map_values(|b: u8| b != 0) =~= a) by {
        assert forall|i: int| 0 <= i < a.len() implies s.subrange(pos + 1, pos + 1 + s[pos])[i] == body[i] by {
        }
    }
}

/// Where a length prefix and a blob of that length stand at `pos`, the
/// field reads as the blob does, and always ends right after the blob.
pub proof fn lemma_definition_field_frame(blob: Seq<u8>, s: Seq<u8>, pos: int)
    requires
        0 <= pos,
        blob.len() <= u64::MAX,
        pos + varint_bytes(blob.len()).len() + blob.len() <= s.len(),
        s.subrange(pos, pos + varint_bytes(blob.len()).len() + blob.len()) == varint_bytes(blob.len()) + blob,
    ensures
        parse_definition_field(s, pos) == match parse_definition(blob) {
            Ok(d) => Ok::<(DefinitionModel, int), DecodeError>((d, pos + varint_bytes(blob.len()).len() + blob.len())),
            Err(e) => Err(e),
        },
{
    let k = varint_bytes(blob.len()).len();
    let rest = s.subrange(pos + k, s.len() as int);
    lemma_split(s, pos, varint_bytes(blob.len()), blob);
    assert(s.subrange(pos, s.len() as int) =~= varint_bytes(blob.len()) + rest);
    lemma_varint_round_trip(blob.len() as u64, rest);
}

proof fn lemma_definition_field_round_trip(d: DefinitionModel, s: Seq<u8>, pos: int)
    requires
        0 <= pos,
        definition_valid(d),
        pos + value_bytes(ValueModel::RPCDefinition(d)).len() <= s.len(),
        s.subrange(pos, pos + value_bytes(ValueModel::RPCDefinition(d)).len()) == value_bytes(ValueModel::RPCDefinition(d)),
    ensures
        parse_definition_field(s, pos) == Ok::<(DefinitionModel, int), DecodeError>(
            (d, pos + value_bytes(ValueModel::RPCDefinition(d)).len()),
        ),
    decreases d, 1nat,
{
    let blob = definition_blob(d);
    assert(value_bytes(ValueModel::RPCDefinition(d)) == varint_bytes(blob.len()) + blob);
    lemma_definition_field_frame(blob, s, pos);
    lemma_definition_blob_round_trip(d);
}

proof fn lemma_doubles_round_trip(a: Seq<u64>, s: Seq<u8>, pos: int)
    requires
        0 <= pos,
        pos + doubles_body(a).len() <= s.len(),
        s.subrange(pos, pos + doubles_body(a).len()) == doubles_body(a),
    ensures
        parse_doubles(s, pos, a.len()) == Ok::<(Seq<u64>, int), DecodeError>((a, pos + doubles_body(a).len())),
    decreases a.len(),
{
    if a.len() > 0 {
        let init = doubles_body(a.drop_last());
        lemma_split(s, pos, init, double_bytes(a.last()));
        lemma_doubles_round_trip(a.drop_last(), s, pos);
        lemma_double_round_trip(a.last(), s, pos + init.len());
        assert(a.drop_last().push(a.last()) =~= a);
    } else {
        assert(a =~= Seq::empty());
    }
}

proof fn lemma_texts_round_trip(a: Seq<Seq<char>>, s: Seq<u8>, pos: int)
    requires
        0 <= pos,
        forall|i: int| 0 <= i < a.len() ==> text_valid(#[trigger] a[i]),
        pos + texts_body(a).len() <= s.len(),
        s.subrange(pos, pos + texts_body(a).len()) == texts_body(a),
    ensures
        parse_texts(s, pos, a.len()) == Ok::<(Seq<Seq<char>>, int), DecodeError>((a, pos + texts_body(a).len())),
    decreases a.len(),
{
    if a.len() > 0 {
        let init = texts_body(a.drop_last());
        lemma_split(s, pos, init, text_bytes(a.last()));
        assert forall|i: int| 0 <= i < a.drop_last().len() implies text_valid(#[trigger] a.drop_last()[i]) by {
            assert(a.drop_last()[i] == a[i]);
        }
        lemma_texts_round_trip(a.drop_last(), s, pos);
        assert(text_valid(a[a.len() - 1]));
        lemma_text_round_trip(a.last(), s, pos + init.len());
        assert(a.drop_last().push(a.last()) =~= a);
    } else {
        assert(a =~= Seq::empty());
    }
}

proof fn lemma_results_round_trip(rs: Seq<ResultModel>, s: Seq<u8>, pos: int)
    requires
        0 <= pos,
        forall|i: int| 0 <= i < rs.len() ==> text_valid(#[trigger] rs[i].name),
        pos + results_bytes(rs).len() <= s.len(),
        s.subrange(pos, pos + results_bytes(rs).len()) == results_bytes(rs),
    ensures
        parse_results(s, pos, rs.len()) == Ok::<(Seq<ResultModel>, int), DecodeError>((rs, pos + results_bytes(rs).len())),
    decreases rs.len(),
{
    if rs.len() > 0 {
        let init = results_bytes(rs.drop_last());
        let r = rs.last();
        lemma_split(s, pos, init, result_bytes(r));
        assert forall|i: int| 0 <= i < rs.drop_last().len() implies text_valid(#[trigger] rs.drop_last()[i].name) by {
            assert(rs.drop_last()[i] == rs[i]);
        }
        lemma_results_round_trip(rs.drop_last(), s, pos);
        let p = pos + init.len();
        lemma_split(s, p, seq![type_tag(r.ty)], text_bytes(r.name));
        assert(p + 1 <= s.len());
        lemma_type_round_trip(r.ty, s, p);
        assert(text_valid(rs[rs.len() - 1].name));
        lemma_text_round_trip(r.name, s, p + 1);
        assert(rs.drop_last().push(r) =~= rs);
    } else {
        assert(rs =~= Seq::empty());
    }
}

proof fn lemma_parameter_round_trip(p: ParameterModel, s: Seq<u8>, pos: int)
    requires
        0 <= pos,
        parameter_valid(p),
        pos + parameter_bytes(p).len() <= s.len(),
        s.subrange(pos, pos + parameter_bytes(p).len()) == parameter_bytes(p),
    ensures
        parse_parameter(s, pos) == Ok::<(ParameterModel, int), DecodeError>((p, pos + parameter_bytes(p).len())),
    decreases p, 0nat,
{
    let head = seq![type_tag(p.ty)] + text_bytes(p.name);
    lemma_split(s, pos, head, value_bytes(p.default));
    lemma_split(s, pos, seq![type_tag(p.ty)], text_bytes(p.name));
    lemma_type_round_trip(p.ty, s, pos);
    lemma_text_round_trip(p.name, s, pos + 1);
    lemma_value_round_trip(p.default, s, pos + head.len());
}

proof fn lemma_parameters_round_trip(ps: Seq<ParameterModel>, s: Seq<u8>, pos: int)
    requires
        0 <= pos,
        parameters_valid(ps),
        pos + parameters_bytes(ps).len() <= s.len(),
        s.subrange(pos, pos + parameters_bytes(ps).len()) == parameters_bytes(ps),
    ensures
        parse_parameters(s, pos, ps.len()) == Ok::<(Seq<ParameterModel>, int), DecodeError>((ps, pos + parameters_bytes(ps).len())),
    decreases ps, 0nat,
{
    if ps.len() > 0 {
        let init = parameters_bytes(ps.drop_last());
        lemma_split(s, pos, init, parameter_bytes(ps.last()));
        lemma_parameters_round_trip(ps.drop_last(), s, pos);
        lemma_parameter_round_trip(ps.last(), s, pos + init.len());
        assert(ps.drop_last().push(ps.last()) =~= ps);
    } else {
        assert(ps =~= Seq::empty());
    }
}

/// A well-formed definition's blob reads back as the same definition.
#[verifier::spinoff_prover]
#[verifier::rlimit(60)]
pub proof fn lemma_definition_blob_round_trip(d: DefinitionModel)
    requires
        definition_valid(d),
    ensures
        parse_definition(definition_blob(d)) == Ok::<DefinitionModel, DecodeError>(d),
    decreases d, 0nat,
{
    let b = definition_blob(d);
    if d.version != 0 {
        let t = text_bytes(d.name);
        let pb = parameters_bytes(d.parameters);
        let rb = results_bytes(d.results);
        let np = seq![d.parameters.len() as u8];
        let nr = seq![d.results.len() as u8];
        assert(b == seq![1u8] + t + np + pb + nr + rb);
        assert(b.subrange(0, b.len() as int) =~= b);
        lemma_split(b, 0, seq![1u8] + t + np + pb + nr, rb);
        lemma_split(b, 0, seq![1u8] + t + np + pb, nr);
        lemma_split(b, 0, seq![1u8] + t + np, pb);
        lemma_split(b, 0, seq![1u8] + t, np);
        lemma_split(b, 0, seq![1u8], t);
        assert(b[0] == 1u8);
        lemma_text_round_trip(d.name, b, 1);
        let p1: int = 1 + t.len() as int;
        assert(parse_text(b, 1) == Ok::<(Seq<char>, int), DecodeError>((d.name, p1)));
        assert(b[p1] == np[0]);
        assert(b[p1] as nat == d.parameters.len());
        lemma_parameters_round_trip(d.parameters, b, p1 + 1);
        let p2: int = p1 + 1 + pb.len();
        assert(parse_parameters(b, p1 + 1, b[p1] as nat) == Ok::<(Seq<ParameterModel>, int), DecodeError>((d.parameters, p2)));
        assert(b[p2] == nr[0]);
        assert(b[p2] as nat == d.results.len());
        lemma_results_round_trip(d.results, b, p2 + 1);
        assert(parse_results(b, p2 + 1, b[p2] as nat) == Ok::<(Seq<ResultModel>, int), DecodeError>((d.results, p2 + 1 + rb.len())));
        assert(d == DefinitionModel { version: 1, name: d.name, parameters: d.parameters, results: d.results });
    }
}

/// Reading a value of kind `model_type(m)` where the bytes of a well-formed
/// `m` stand at `pos` gives `m` back and ends right after those bytes,
/// whatever follows them.
#[verifier::spinoff_prover]
pub proof fn lemma_value_round_trip(m: ValueModel, s: Seq<u8>, pos: int)
    requires
        0 <= pos,
        value_valid(m),
        pos + value_bytes(m).len() <= s.len(),
        s.subrange(pos, pos + value_bytes(m).len()) == value_bytes(m),
    ensures
        parse_value(model_type(m), s, pos) == Ok::<(ValueModel, int), DecodeError>((m, pos + value_bytes(m).len())),
    decreases m, 0nat,
{
    let vb = value_bytes(m);
    match m {
        ValueModel::Boolean(b) => {
            assert(s[pos] == vb[0]);
        },
        ValueModel::Double(d) => {
            lemma_double_round_trip(d, s, pos);
        },
        ValueModel::String(t) => {
            lemma_text_round_trip(t, s, pos);
        },
        ValueModel::Raw(r) => {
            lemma_raw_round_trip(r, s, pos);
        },
        ValueModel::BooleanArray(a) => {
            lemma_bools_round_trip(a, s, pos);
        },
        ValueModel::DoubleArray(a) => {
            lemma_split(s, pos, seq![a.len() as u8], doubles_body(a));
            assert(s[pos] == vb[0]);
            lemma_doubles_round_trip(a, s, pos + 1);
        },
        ValueModel::StringArray(a) => {
            lemma_split(s, pos, seq![a.len() as u8], texts_body(a));
            assert(s[pos] == vb[0]);
            lemma_texts_round_trip(a, s, pos + 1);
        },
        ValueModel::RPCDefinition(d) => {
            lemma_definition_field_round_trip(d, s, pos);
        },
    }
}

/// Decoding the bytes of a well-formed value, with its kind, gives the value
/// back and consumes exactly its encoded length.
pub proof fn lemma_value_decode_encode(m: ValueModel)
    requires
        value_valid(m),
    ensures
        parse_value(model_type(m), value_bytes(m), 0) == Ok::<(ValueModel, int), DecodeError>((m, value_bytes(m).len() as int)),
{
    assert(value_bytes(m).subrange(0, value_bytes(m).len() as int) =~= value_bytes(m));
    lemma_value_round_trip(m, value_bytes(m), 0);
}

/// A definition blob whose version byte is `0` reads as the empty
/// definition whatever else it holds, and the whole declared length is
/// consumed.
pub proof fn lemma_version_zero_definition(blob: Seq<u8>)
    requires
        blob.len() >= 1,
        blob[0] == 0,
        blob.len() <= u64::MAX,
    ensures
        parse_definition_field(varint_bytes(blob.len()) + blob, 0) == Ok::<(DefinitionModel, int), DecodeError>(
            (empty_definition(), (varint_bytes(blob.len()) + blob).len() as int),
        ),
{
    let s = varint_bytes(blob.len()) + blob;
    assert(s.subrange(0, s.len() as int) =~= s);
    lemma_definition_field_frame(blob, s, 0);
}

/// Where `v` without its last byte ends `s` from `pos`, the first `j`
/// bytes of `v` stand at `pos`.
proof fn lemma_truncated_prefix(s: Seq<u8>, pos: int, v: Seq<u8>, j: int)
    requires
        0 <= pos,
        v.len() >= 1,
        s.len() == pos + v.len() - 1,
        s.subrange(pos, s.len() as int) == v.drop_last(),
        0 <= j < v.len(),
    ensures
        s.subrange(pos, pos + j) == v.subrange(0, j),
{
    assert(s.subrange(pos, pos + j) =~= v.drop_last().subrange(0, j));
}

/// A length prefix of `n >= 1` whose payload lacks its last byte: the
/// prefix reads back whole and the payload is found short.
proof fn lemma_short_payload(n: nat, s: Seq<u8>, pos: int)
    requires
        0 <= pos,
        1 <= n <= u64::MAX,
        s.len() == pos + varint_bytes(n).len() + n - 1,
        s.subrange(pos, pos + varint_bytes(n).len()) == varint_bytes(n),
    ensures
        varint_decode(s.subrange(pos, s.len() as int)) == Some((n as u64, varint_bytes(n).len())),
        n > s.len() - (pos + varint_bytes(n).len()),
{
    let k = varint_bytes(n).len();
    let rest = s.subrange(pos + k, s.len() as int);
    assert(s.subrange(pos, s.len() as int) =~= varint_bytes(n) + rest);
    lemma_varint_round_trip(n as u64, rest);
}

proof fn lemma_raw_truncated(r: Seq<u8>, s: Seq<u8>, pos: int)
    requires
        0 <= pos,
        r.len() <= u64::MAX,
        s.len() == pos + raw_bytes(r).len() - 1,
        s.subrange(pos, s.len() as int) == raw_bytes(r).drop_last(),
    ensures
        parse_raw(s, pos) == Err::<(Seq<u8>, int), DecodeError>(DecodeError::TruncatedInput),
{
    let k = varint_bytes(r.len()).len();
    lemma_varint_round_trip(r.len() as u64, Seq::empty());
    if r.len() == 0 {
        assert(s.subrange(pos, s.len() as int).len() == 0);
    } else {
        lemma_truncated_prefix(s, pos, raw_bytes(r), k as int);
        assert(raw_bytes(r).subrange(0, k as int) =~= varint_bytes(r.len()));
        lemma_short_payload(r.len(), s, pos);
    }
}

#[verifier::spinoff_prover]
proof fn lemma_array_truncated(m: ValueModel, s: Seq<u8>, pos: int)
    requires
        0 <= pos,
        value_valid(m),
        m is DoubleArray || m is StringArray,
        s.len() == pos + value_bytes(m).len() - 1,
        s.subrange(pos, s.len() as int) == value_bytes(m).drop_last(),
    ensures
        parse_value(model_type(m), s, pos) == Err::<(ValueModel, int), DecodeError>(DecodeError::TruncatedInput),
{
    let vb = value_bytes(m);
    match m {
        ValueModel::DoubleArray(a) => {
            assert(vb == seq![a.len() as u8] + doubles_body(a));
            if a.len() > 0 {
                lemma_truncated_prefix(s, pos, vb, 1);
                assert(s[pos] == s.subrange(pos, pos + 1)[0]);
                let init = doubles_body(a.drop_last());
                lemma_truncated_prefix(s, pos, vb, 1 + init.len() as int);
                assert(s.subrange(pos + 1, pos + 1 + init.len()) =~= s.subrange(pos, pos + 1 + init.len()).subrange(1, 1 + init.len() as int));
                assert(vb.subrange(0, 1 + init.len() as int).subrange(1, 1 + init.len() as int) =~= init);
                lemma_doubles_round_trip(a.drop_last(), s, pos + 1);
                assert(a.drop_last().len() == (s[pos] as nat - 1) as nat);
                assert(parse_double(s, pos + 1 + init.len()) is Err);
            } else {
                assert(s.len() == pos);
            }
        },
        ValueModel::StringArray(a) => {
            assert(vb == seq![a.len() as u8] + texts_body(a));
            if a.len() > 0 {
                lemma_truncated_prefix(s, pos, vb, 1);
                assert(s[pos] == s.subrange(pos, pos + 1)[0]);
                let init = texts_body(a.drop_last());
                let last = text_bytes(a.last());
                lemma_truncated_prefix(s, pos, vb, 1 + init.len() as int);
                assert(s.subrange(pos + 1, pos + 1 + init.len()) =~= s.subrange(pos, pos + 1 + init.len()).subrange(1, 1 + init.len() as int));
                assert(vb.subrange(0, 1 + init.len() as int).subrange(1, 1 + init.len() as int) =~= init);
                assert forall|i: int| 0 <= i < a.drop_last().len() implies text_valid(#[trigger] a.drop_last()[i]) by {
                    assert(a.drop_last()[i] == a[i]);
                }
                lemma_texts_round_trip(a.drop_last(), s, pos + 1);
                let p = pos + 1 + init.len();
                assert(vb =~= seq![a.len() as u8] + init + last);
                assert(s.subrange(p, s.len() as int) =~= last.drop_last()) by {
                    assert(s.subrange(p, s.len() as int) =~= s.subrange(pos, s.len() as int).subrange(1 + init.len() as int, vb.len() - 1));
                }
                assert(text_valid(a[a.len() - 1]));
                lemma_raw_truncated(vstd::utf8::encode_utf8(a.last()), s, p);
            } else {
                assert(s.len() == pos);
            }
        },
        _ => {},
    }
}

/// Reading a well-formed value's bytes with the last one missing fails
/// with `TruncatedInput`, whatever the kind.
#[verifier::spinoff_prover]
pub proof fn lemma_truncated_value(m: ValueModel)
    requires
        value_valid(m),
    ensures
        parse_value(model_type(m), value_bytes(m).drop_last(), 0) == Err::<(ValueModel, int), DecodeError>(
            DecodeError::TruncatedInput,
        ),
{
    let vb = value_bytes(m);
    let s = vb.drop_last();
    lemma_value_len(m);
    assert(s.subrange(0, s.len() as int) =~= s);
    match m {
        ValueModel::String(t) => {
            lemma_raw_truncated(vstd::utf8::encode_utf8(t), s, 0);
        },
        ValueModel::Raw(r) => {
            lemma_raw_truncated(r, s, 0);
        },
        ValueModel::BooleanArray(a) => {
            if a.len() > 0 {
                assert(s[0] == vb[0]);
            }
        },
        ValueModel::DoubleArray(_) => {
            lemma_array_truncated(m, s, 0);
        },
        ValueModel::StringArray(_) => {
            lemma_array_truncated(m, s, 0);
        },
        ValueModel::RPCDefinition(d) => {
            let blob = definition_blob(d);
            assert(vb == varint_bytes(blob.len()) + blob);
            let k = varint_bytes(blob.len()).len();
            lemma_truncated_prefix(s, 0, vb, k as int);
            assert(vb.subrange(0, k as int) =~= varint_bytes(blob.len()));
            lemma_short_payload(blob.len(), s, 0);
        },
        _ => {},
    }
}

proof fn lemma_value_len(m: ValueModel)
    ensures
        value_bytes(m).len() >= 1,
        m is RPCDefinition ==> definition_blob(m->RPCDefinition_0).len() >= 1,
{
    match m {
        ValueModel::String(t) => {
            lemma_varint_round_trip(vstd::utf8::encode_utf8(t).len() as u64, Seq::empty());
        },
        ValueModel::Raw(r) => {
            lemma_varint_round_trip(r.len() as u64, Seq::empty());
        },
        ValueModel::RPCDefinition(d) => {
            lemma_varint_round_trip(definition_blob(d).len() as u64, Seq::empty());
        },
        _ => {},
    }
}

} // verus!
