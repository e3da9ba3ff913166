//! Messages as bytes: how a request and a response are written into the
//! body of a frame, and how a request is read back.

use crate::descriptor::{rules_view, DescriptorModel, FieldRule, RuleModel, ToolDescriptor};
use crate::dispatcher::{InvocationRequest, RequestModel};
use crate::endpoint::{
    be32, be32_bytes, encode_frame, frame_of, Request, RequestKind, Response, ResponseModel,
    MAX_FRAME_LEN,
};
use crate::error::{ErrorKind, ErrorModel, InvocationError, InvocationResult, ResultModel};
use crate::text::copy_text;
use crate::registry::descriptors_view;
use crate::value::{fields_view, Field, FieldModel, Value, ValueKind, ValueModel};
use vstd::prelude::*;
use vstd::slice::{slice_subrange, slice_to_vec};
use vstd::string::*;
use vstd::utf8::*;

verus! {

/// A length as it is written: in four bytes.
pub open spec fn wire_u32(n: nat) -> Seq<u8> {
    be32_bytes(n)
}

/// A text as it is written: the number of its UTF-8 bytes, then the bytes.
#[verifier::opaque]
pub open spec fn wire_text(s: Seq<char>) -> Seq<u8> {
    wire_u32(encode_utf8(s).len()) + encode_utf8(s)
}

/// A 64-bit integer as it is written: its two's complement in eight
/// bytes, the most significant first.
pub open spec fn wire_int(v: i64) -> Seq<u8> {
    wire_u32(((v as u64) / 4294967296) as nat) + wire_u32(((v as u64) % 4294967296) as nat)
}

/// A value as it is written: a byte for its kind, then what it holds.
pub open spec fn wire_value(v: ValueModel) -> Seq<u8> {
    match v {
        ValueModel::Null => seq![0u8],
        ValueModel::Bool(b) => seq![1u8, if b { 1u8 } else { 0u8 }],
        ValueModel::Int(i) => seq![2u8] + wire_int(i),
        ValueModel::Text(t) => seq![3u8] + wire_text(t),
    }
}

/// A field as it is written: its name, then its value.
pub open spec fn wire_field(f: FieldModel) -> Seq<u8> {
    wire_text(f.name) + wire_value(f.value)
}

/// Fields as they are written: one after the other.
pub open spec fn wire_fields(fields: Seq<FieldModel>) -> Seq<u8>
    decreases fields.len(),
{
    if fields.len() == 0 {
        Seq::<u8>::empty()
    } else {
        wire_field(fields[0]) + wire_fields(fields.skip(1))
    }
}

/// A request as it is written: a byte for what is asked, the id, and for
/// a call the name of the tool, the number of arguments and the arguments.
pub open spec fn wire_request(r: RequestKind) -> Seq<u8> {
    match r {
        RequestKind::ListTools { id } => seq![1u8] + wire_text(id),
        RequestKind::CallTool(call) => seq![2u8] + wire_text(call.request_id) + wire_text(
            call.tool_name,
        ) + wire_u32(call.arguments.len()) + wire_fields(call.arguments),
    }
}

/// Reads a length from the front of `input`.
pub open spec fn parse_u32(input: Seq<u8>) -> Option<(nat, Seq<u8>)> {
    if input.len() < 4 {
        None
    } else {
        Some((be32(input[0], input[1], input[2], input[3]), input.skip(4)))
    }
}

/// Reads a text from the front of `input`: its bytes must all be there
/// and be UTF-8.
#[verifier::opaque]
pub open spec fn parse_text(input: Seq<u8>) -> Option<(Seq<char>, Seq<u8>)> {
    match parse_u32(input) {
        None => None,
        Some((n, rest)) => if rest.len() < n {
            None
        } else if !valid_utf8(rest.take(n as int)) {
            None
        } else {
            Some((decode_utf8(rest.take(n as int)), rest.skip(n as int)))
        },
    }
}

/// Reads a value from the front of `input`.
pub open spec fn parse_value(input: Seq<u8>) -> Option<(ValueModel, Seq<u8>)> {
    if input.len() == 0 {
        None
    } else if input[0] == 0 {
        Some((ValueModel::Null, input.skip(1)))
    } else if input[0] == 1 {
        if input.len() < 2 || input[1] > 1 {
            None
        } else {
            Some((ValueModel::Bool(input[1] == 1), input.skip(2)))
        }
    } else if input[0] == 2 {
        match parse_u32(input.skip(1)) {
            None => None,
            Some((hi, after_hi)) => match parse_u32(after_hi) {
                None => None,
                Some((lo, rest)) => Some(
                    (ValueModel::Int(((hi * 4294967296 + lo) as u64) as i64), rest),
                ),
            },
        }
    } else if input[0] == 3 {
        match parse_text(input.skip(1)) {
            None => None,
            Some((t, rest)) => Some((ValueModel::Text(t), rest)),
        }
    } else {
        None
    }
}

/// Reads a field from the front of `input`.
pub open spec fn parse_field(input: Seq<u8>) -> Option<(FieldModel, Seq<u8>)> {
    match parse_text(input) {
        None => None,
        Some((name, after_name)) => match parse_value(after_name) {
            None => None,
            Some((value, rest)) => Some((FieldModel { name, value }, rest)),
        },
    }
}

/// Reads `count` more fields from the front of `input`, behind those
/// read so far.
pub open spec fn parse_fields(input: Seq<u8>, count: nat, so_far: Seq<FieldModel>) -> Option<
    (Seq<FieldModel>, Seq<u8>),
>
    decreases count,
{
    if count == 0 {
        Some((so_far, input))
    } else {
        match parse_field(input) {
            None => None,
            Some((f, rest)) => parse_fields(rest, (count - 1) as nat, so_far.push(f)),
        }
    }
}

/// Reads a request from a whole body: nothing may follow it.
pub open spec fn parse_request(input: Seq<u8>) -> Option<RequestKind> {
    if input.len() == 0 {
        None
    } else if input[0] == 1 {
        match parse_text(input.skip(1)) {
            Some((id, rest)) => if rest.len() == 0 {
                Some(RequestKind::ListTools { id })
            } else {
                None
            },
            None => None,
        }
    } else if input[0] == 2 {
        match parse_text(input.skip(1)) {
            None => None,
            Some((request_id, after_id)) => match parse_text(after_id) {
                None => None,
                Some((tool_name, after_tool)) => match parse_u32(after_tool) {
                    None => None,
                    Some((count, after_count)) => match parse_fields(
                        after_count,
                        count,
                        Seq::<FieldModel>::empty(),
                    ) {
                        None => None,
                        Some((arguments, rest)) => if rest.len() == 0 {
                            Some(
                                RequestKind::CallTool(
                                    RequestModel { request_id, tool_name, arguments },
                                ),
                            )
                        } else {
                            None
                        },
                    },
                },
            },
        }
    } else {
        None
    }
}

/// Whether the text is short enough for its length to be written.
pub open spec fn text_fits(s: Seq<char>) -> bool {
    encode_utf8(s).len() < 4294967296
}

/// Whether the texts of the field are short enough.
pub open spec fn field_fits(f: FieldModel) -> bool {
    text_fits(f.name) && (f.value matches ValueModel::Text(t) ==> text_fits(t))
}

/// Whether the texts of each field are short enough.
pub open spec fn fields_fit(fields: Seq<FieldModel>) -> bool
    decreases fields.len(),
{
    fields.len() == 0 || (field_fits(fields[0]) && fields_fit(fields.skip(1)))
}

/// Whether the texts of the request are short enough, and its arguments
/// few enough, to be written.
pub open spec fn request_fits(r: RequestKind) -> bool {
    match r {
        RequestKind::ListTools { id } => text_fits(id),
        RequestKind::CallTool(call) => {
            &&& text_fits(call.request_id)
            &&& text_fits(call.tool_name)
            &&& call.arguments.len() < 4294967296
            &&& fields_fit(call.arguments)
        },
    }
}

/// A length that four bytes hold is read back as it was written.
pub proof fn lemma_u32_round_trip(n: nat, rest: Seq<u8>)
    requires
        n < 4294967296,
    ensures
        parse_u32(wire_u32(n) + rest) == Some((n, rest)),
{
    let input = wire_u32(n) + rest;
    assert(input[0] == be32_bytes(n)[0]);
    assert(input[1] == be32_bytes(n)[1]);
    assert(input[2] == be32_bytes(n)[2]);
    assert(input[3] == be32_bytes(n)[3]);
    assert(be32(input[0], input[1], input[2], input[3]) == n);
    assert(input.skip(4) =~= rest);
}

/// A text that fits is read back as it was written.
pub proof fn lemma_text_round_trip(s: Seq<char>, rest: Seq<u8>)
    requires
        text_fits(s),
    ensures
        parse_text(wire_text(s) + rest) == Some((s, rest)),
{
    reveal(wire_text);
    reveal(parse_text);
    let bytes = encode_utf8(s);
    let n = bytes.len();
    assert(wire_text(s) + rest =~= wire_u32(n) + (bytes + rest));
    lemma_u32_round_trip(n, bytes + rest);
    assert((bytes + rest).take(n as int) =~= bytes);
    assert((bytes + rest).skip(n as int) =~= rest);
    encode_utf8_valid_utf8(s);
    encode_utf8_decode_utf8(s);
}

/// An integer is read back as it was written.
pub proof fn lemma_int_round_trip(v: i64, rest: Seq<u8>)
    ensures
        parse_value((seq![2u8] + wire_int(v)) + rest) == Some((ValueModel::Int(v), rest)),
{
    let u = v as u64;
    let hi = (u / 4294967296) as nat;
    let lo = (u % 4294967296) as nat;
    let input = (seq![2u8] + wire_int(v)) + rest;
    assert(input[0] == 2);
    assert(input.skip(1) =~= wire_u32(hi) + (wire_u32(lo) + rest));
    lemma_u32_round_trip(hi, wire_u32(lo) + rest);
    lemma_u32_round_trip(lo, rest);
    assert(hi * 4294967296 + lo == u);
    assert((u as i64) == v) by (bit_vector)
        requires
            u == v as u64,
    ;
}

/// A value whose text fits is read back as it was written.
pub proof fn lemma_value_round_trip(v: ValueModel, rest: Seq<u8>)
    requires
        v matches ValueModel::Text(t) ==> text_fits(t),
    ensures
        parse_value(wire_value(v) + rest) == Some((v, rest)),
{
    let input = wire_value(v) + rest;
    match v {
        ValueModel::Null => {
            assert(input[0] == 0);
            assert(input.skip(1) =~= rest);
        },
        ValueModel::Bool(b) => {
            assert(input[0] == 1);
            assert(input[1] == (if b { 1u8 } else { 0u8 }));
            assert(input.skip(2) =~= rest);
        },
        ValueModel::Int(i) => {
            lemma_int_round_trip(i, rest);
        },
        ValueModel::Text(t) => {
            assert(input[0] == 3);
            assert(input.skip(1) =~= wire_text(t) + rest);
            lemma_text_round_trip(t, rest);
        },
    }
}

/// A field that fits is read back as it was written.
pub proof fn lemma_field_round_trip(f: FieldModel, rest: Seq<u8>)
    requires
        field_fits(f),
    ensures
        parse_field(wire_field(f) + rest) == Some((f, rest)),
{
    assert(wire_field(f) + rest =~= wire_text(f.name) + (wire_value(f.value) + rest));
    lemma_text_round_trip(f.name, wire_value(f.value) + rest);
    lemma_value_round_trip(f.value, rest);
}

/// Bytes written one after the other can be read as the first, then the
/// rest.
pub proof fn lemma_concat_assoc(a: Seq<u8>, b: Seq<u8>, c: Seq<u8>)
    ensures
        (a + b) + c == a + (b + c),
{
    assert((a + b) + c =~= a + (b + c));
}

/// The first of a list behind others, then the rest, are the others and
/// the list.
pub proof fn lemma_push_first_then_rest(so_far: Seq<FieldModel>, fields: Seq<FieldModel>)
    requires
        fields.len() > 0,
    ensures
        so_far.push(fields[0]) + fields.skip(1) == so_far + fields,
{
    assert(so_far.push(fields[0]) + fields.skip(1) =~= so_far + fields);
}

/// Where a field is read, reading one field more is reading the rest
/// behind it.
pub proof fn lemma_parse_fields_step(
    input: Seq<u8>,
    count: nat,
    so_far: Seq<FieldModel>,
    head: FieldModel,
    after: Seq<u8>,
)
    requires
        count > 0,
        parse_field(input) == Some((head, after)),
    ensures
        parse_fields(input, count, so_far) == parse_fields(
            after,
            (count - 1) as nat,
            so_far.push(head),
        ),
{
}

/// Fields that fit are read back as they were written, behind those read
/// so far.
#[verifier::rlimit(40)]
pub proof fn lemma_fields_round_trip(fields: Seq<FieldModel>, rest: Seq<u8>, so_far: Seq<FieldModel>)
    requires
        fields_fit(fields),
    ensures
        parse_fields(wire_fields(fields) + rest, fields.len(), so_far) == Some((so_far + fields, rest)),
    decreases fields.len(),
{
    if fields.len() == 0 {
        assert(wire_fields(fields) + rest =~= rest);
        assert(so_far + fields =~= so_far);
    } else {
        let head = fields[0];
        let tail = fields.skip(1);
        let after = wire_fields(tail) + rest;
        lemma_concat_assoc(wire_field(head), wire_fields(tail), rest);
        lemma_field_round_trip(head, after);
        lemma_parse_fields_step(wire_fields(fields) + rest, fields.len(), so_far, head, after);
        lemma_fields_round_trip(tail, rest, so_far.push(head));
        lemma_push_first_then_rest(so_far, fields);
    }
}

/// A request that fits is read back as it was written.
#[verifier::rlimit(40)]
pub proof fn lemma_request_round_trip(r: RequestKind)
    requires
        request_fits(r),
    ensures
        parse_request(wire_request(r)) == Some(r),
{
    let input = wire_request(r);
    let none = Seq::<u8>::empty();
    match r {
        RequestKind::ListTools { id } => {
            assert(input[0] == 1);
            assert(input.skip(1) =~= wire_text(id) + none);
            lemma_text_round_trip(id, none);
        },
        RequestKind::CallTool(call) => {
            let n = call.arguments.len();
            let after_count = wire_fields(call.arguments) + none;
            let after_tool = wire_u32(n) + after_count;
            let after_id = wire_text(call.tool_name) + after_tool;
            assert(input[0] == 2);
            assert(input.skip(1) =~= wire_text(call.request_id) + after_id);
            lemma_text_round_trip(call.request_id, after_id);
            lemma_text_round_trip(call.tool_name, after_tool);
            lemma_u32_round_trip(n, after_count);
            lemma_fields_round_trip(call.arguments, none, Seq::<FieldModel>::empty());
            assert(Seq::<FieldModel>::empty() + call.arguments =~= call.arguments);
        },
    }
}

/// A written text is four bytes longer than its UTF-8 form.
pub proof fn lemma_wire_text_len(s: Seq<char>)
    ensures
        wire_text(s).len() == 4 + encode_utf8(s).len(),
{
    reveal(wire_text);
}

/// A written field is longer than its name and than the text it holds.
pub proof fn lemma_wire_field_len(f: FieldModel)
    ensures
        wire_field(f).len() >= 5 + encode_utf8(f.name).len(),
        f.value matches ValueModel::Text(t) ==> wire_field(f).len() >= 9 + encode_utf8(t).len(),
{
    lemma_wire_text_len(f.name);
    match f.value {
        ValueModel::Text(t) => {
            lemma_wire_text_len(t);
            assert(wire_value(f.value).len() == 1 + wire_text(t).len());
        },
        ValueModel::Null => {},
        ValueModel::Bool(_) => {},
        ValueModel::Int(_) => {},
    }
}

/// Fields whose written form is short are few, and their texts fit.
pub proof fn lemma_short_fields_fit(fields: Seq<FieldModel>)
    requires
        wire_fields(fields).len() < 4294967296,
    ensures
        fields_fit(fields),
        fields.len() <= wire_fields(fields).len(),
    decreases fields.len(),
{
    if fields.len() > 0 {
        let head = fields[0];
        let tail = fields.skip(1);
        assert(wire_fields(fields).len() == wire_field(head).len() + wire_fields(tail).len());
        lemma_wire_field_len(head);
        lemma_short_fields_fit(tail);
    }
}

/// A request whose written form is short fits.
#[verifier::rlimit(40)]
pub proof fn lemma_short_request_fits(r: RequestKind)
    requires
        wire_request(r).len() < 4294967296,
    ensures
        request_fits(r),
{
    match r {
        RequestKind::ListTools { id } => {
            lemma_wire_text_len(id);
            assert(wire_request(r).len() == 1 + wire_text(id).len());
        },
        RequestKind::CallTool(call) => {
            lemma_wire_text_len(call.request_id);
            lemma_wire_text_len(call.tool_name);
            assert(wire_request(r).len() == 1 + wire_text(call.request_id).len() + wire_text(
                call.tool_name,
            ).len() + 4 + wire_fields(call.arguments).len());
            lemma_short_fields_fit(call.arguments);
        },
    }
}

/// A request whose written form a frame can carry is read back as it was
/// written.
pub proof fn lemma_framed_request_round_trip(r: RequestKind)
    requires
        wire_request(r).len() <= MAX_FRAME_LEN,
    ensures
        parse_request(wire_request(r)) == Some(r),
{
    lemma_short_request_fits(r);
    lemma_request_round_trip(r);
}

/// The fields, one more written behind the others.
pub proof fn lemma_wire_fields_push(fields: Seq<FieldModel>, f: FieldModel)
    ensures
        wire_fields(fields.push(f)) == wire_fields(fields) + wire_field(f),
    decreases fields.len(),
{
    let all = fields.push(f);
    if fields.len() == 0 {
        assert(all.skip(1) =~= Seq::<FieldModel>::empty());
        assert(wire_fields(all.skip(1)) =~= Seq::<u8>::empty());
        assert(wire_fields(all) =~= wire_field(f));
        assert(wire_fields(fields) + wire_field(f) =~= wire_field(f));
    } else {
        assert(all.skip(1) =~= fields.skip(1).push(f));
        lemma_wire_fields_push(fields.skip(1), f);
        assert(all[0] == fields[0]);
        assert(wire_fields(all) =~= wire_fields(fields) + wire_field(f));
    }
}

/// Writes a length in four bytes.
pub fn put_u32(out: &mut Vec<u8>, n: usize)
    ensures
        final(out)@ == old(out)@ + wire_u32(n as nat),
{
    out.push(((n / 16777216) % 256) as u8);
    out.push(((n / 65536) % 256) as u8);
    out.push(((n / 256) % 256) as u8);
    out.push((n % 256) as u8);
    assert(out@ =~= old(out)@ + wire_u32(n as nat));
}

/// Writes bytes as they are.
pub fn put_bytes(out: &mut Vec<u8>, bytes: &[u8])
    ensures
        final(out)@ == old(out)@ + bytes@,
{
    let n: usize = bytes.len();
    let mut i: usize = 0;
    assert(out@ =~= old(out)@ + bytes@.take(0));
    while i < n
        invariant
            n == bytes@.len(),
            i <= n,
            out@ == old(out)@ + bytes@.take(i as int),
        decreases n - i,
    {
        out.push(bytes[i]);
        assert(out@ =~= old(out)@ + bytes@.take(i + 1));
        i = i + 1;
    }
    assert(bytes@.take(n as int) =~= bytes@);
}

/// Writes a text.
pub fn put_text(out: &mut Vec<u8>, s: &str)
    ensures
        final(out)@ == old(out)@ + wire_text(s@),
{
    let bytes = s.as_bytes();
    put_u32(out, bytes.len());
    put_bytes(out, bytes);
    proof {
        reveal(wire_text);
        assert(out@ =~= old(out)@ + wire_text(s@));
    }
}

/// Writes a value.
pub fn put_value(out: &mut Vec<u8>, v: &Value)
    ensures
        final(out)@ == old(out)@ + wire_value(v@),
{
    match v {
        Value::Null => {
            out.push(0);
        },
        Value::Bool(b) => {
            out.push(1);
            out.push(if *b { 1 } else { 0 });
        },
        Value::Int(i) => {
            out.push(2);
            let u: u64 = *i as u64;
            put_u32(out, (u / 4294967296) as usize);
            put_u32(out, (u % 4294967296) as usize);
        },
        Value::Text(t) => {
            out.push(3);
            put_text(out, t.as_str());
        },
    }
    assert(out@ =~= old(out)@ + wire_value(v@));
}

/// Writes fields, one after the other.
pub fn put_fields(out: &mut Vec<u8>, fields: &Vec<Field>)
    ensures
        final(out)@ == old(out)@ + wire_fields(fields_view(fields@)),
{
    let n: usize = fields.len();
    let ghost all = fields_view(fields@);
    let mut i: usize = 0;
    assert(out@ =~= old(out)@ + wire_fields(all.take(0)));
    while i < n
        invariant
            n == fields@.len(),
            all == fields_view(fields@),
            i <= n,
            out@ == old(out)@ + wire_fields(all.take(i as int)),
        decreases n - i,
    {
        let ghost before = out@;
        put_text(out, fields[i].name.as_str());
        put_value(out, &fields[i].value);
        proof {
            lemma_wire_fields_push(all.take(i as int), all[i as int]);
            assert(all.take(i + 1) =~= all.take(i as int).push(all[i as int]));
            assert(out@ =~= before + wire_field(all[i as int]));
            assert(out@ =~= old(out)@ + wire_fields(all.take(i + 1)));
        }
        i = i + 1;
    }
    assert(all.take(n as int) =~= all);
}

/// Writes a request into the body of a frame.
pub fn encode_request(request: &Request) -> (r: Vec<u8>)
    ensures
        r@ == wire_request(request@),
{
    let mut out: Vec<u8> = Vec::new();
    match request {
        Request::ListTools { id } => {
            out.push(1);
            put_text(&mut out, id.as_str());
        },
        Request::CallTool(call) => {
            out.push(2);
            put_text(&mut out, call.request_id.as_str());
            put_text(&mut out, call.tool_name.as_str());
            put_u32(&mut out, call.arguments.len());
            put_fields(&mut out, &call.arguments);
        },
    }
    assert(out@ =~= wire_request(request@));
    out
}

/// Calls `String::from_utf8`, which gives the text whose UTF-8 form the
/// bytes are, and nothing where the bytes are not UTF-8.
#[verifier::external_body]
fn text_from_utf8(bytes: Vec<u8>) -> (r: Option<String>)
    ensures
        r is Some <==> valid_utf8(bytes@),
        r matches Some(s) ==> encode_utf8(s@) == bytes@,
{
    String::from_utf8(bytes).ok()
}

/// Reads a length at `at`.
pub fn read_u32(bytes: &[u8], at: usize) -> (r: Option<(usize, usize)>)
    requires
        at <= bytes@.len(),
    ensures
        match parse_u32(bytes@.skip(at as int)) {
            None => r is None,
            Some((n, rest)) => r == Some((n as usize, (at + 4) as usize)) && n < 4294967296 && at + 4
                <= bytes@.len() && rest == bytes@.skip(at + 4),
        },
{
    if bytes.len() - at < 4 {
        return None;
    }
    let n: u64 = (bytes[at] as u64) * 16777216 + (bytes[at + 1] as u64) * 65536 + (bytes[at
        + 2] as u64) * 256 + (bytes[at + 3] as u64);
    proof {
        assert(bytes@.skip(at as int).skip(4) =~= bytes@.skip(at + 4));
    }
    Some((n as usize, at + 4))
}

/// Reads a text at `at`.
pub fn read_text(bytes: &[u8], at: usize) -> (r: Option<(String, usize)>)
    requires
        at <= bytes@.len(),
    ensures
        match parse_text(bytes@.skip(at as int)) {
            None => r is None,
            Some((t, rest)) => r matches Some((s, next)) && s@ == t && next <= bytes@.len() && rest
                == bytes@.skip(next as int),
        },
{
    proof {
        reveal(parse_text);
    }
    let (n, start) = match read_u32(bytes, at) {
        None => {
            return None;
        },
        Some(pair) => pair,
    };
    if bytes.len() - start < n {
        return None;
    }
    let raw = slice_to_vec(slice_subrange(bytes, start, start + n));
    proof {
        assert(bytes@.skip(start as int).take(n as int) =~= bytes@.subrange(
            start as int,
            start + n,
        ));
        assert(bytes@.skip(start as int).skip(n as int) =~= bytes@.skip(start + n));
    }
    match text_from_utf8(raw) {
        None => None,
        Some(s) => {
            proof {
                encode_utf8_decode_utf8(s@);
            }
            Some((s, start + n))
        },
    }
}

/// Reads a value at `at`.
pub fn read_value(bytes: &[u8], at: usize) -> (r: Option<(Value, usize)>)
    requires
        at <= bytes@.len(),
    ensures
        match parse_value(bytes@.skip(at as int)) {
            None => r is None,
            Some((v, rest)) => r matches Some((value, next)) && value@ == v && next <= bytes@.len()
                && rest == bytes@.skip(next as int),
        },
{
    if bytes.len() - at < 1 {
        return None;
    }
    let kind: u8 = bytes[at];
    let ghost input = bytes@.skip(at as int);
    proof {
        assert(input[0] == kind);
        assert(input.skip(1) =~= bytes@.skip(at + 1));
    }
    if kind == 0 {
        Some((Value::Null, at + 1))
    } else if kind == 1 {
        if bytes.len() - at < 2 {
            return None;
        }
        let b: u8 = bytes[at + 1];
        proof {
            assert(input[1] == b);
            assert(input.skip(2) =~= bytes@.skip(at + 2));
        }
        if b > 1 {
            return None;
        }
        Some((Value::Bool(b == 1), at + 2))
    } else if kind == 2 {
        let (hi, after_hi) = match read_u32(bytes, at + 1) {
            None => {
                return None;
            },
            Some(pair) => pair,
        };
        let (lo, next) = match read_u32(bytes, after_hi) {
            None => {
                return None;
            },
            Some(pair) => pair,
        };
        let u: u64 = (hi as u64) * 4294967296 + (lo as u64);
        Some((Value::Int(u as i64), next))
    } else if kind == 3 {
        match read_text(bytes, at + 1) {
            None => None,
            Some((t, next)) => Some((Value::Text(t), next)),
        }
    } else {
        None
    }
}

/// Reads a field at `at`.
pub fn read_field(bytes: &[u8], at: usize) -> (r: Option<(Field, usize)>)
    requires
        at <= bytes@.len(),
    ensures
        match parse_field(bytes@.skip(at as int)) {
            None => r is None,
            Some((f, rest)) => r matches Some((field, next)) && field@ == f && next <= bytes@.len()
                && rest == bytes@.skip(next as int),
        },
{
    let (name, after_name) = match read_text(bytes, at) {
        None => {
            return None;
        },
        Some(pair) => pair,
    };
    match read_value(bytes, after_name) {
        None => None,
        Some((value, next)) => Some((Field { name, value }, next)),
    }
}

/// Reads `count` fields at `at`.
pub fn read_fields(bytes: &[u8], at: usize, count: usize) -> (r: Option<(Vec<Field>, usize)>)
    requires
        at <= bytes@.len(),
    ensures
        match parse_fields(bytes@.skip(at as int), count as nat, Seq::<FieldModel>::empty()) {
            None => r is None,
            Some((fs, rest)) => r matches Some((fields, next)) && fields_view(fields@) == fs && next
                <= bytes@.len() && rest == bytes@.skip(next as int),
        },
{
    let mut fields: Vec<Field> = Vec::new();
    let mut next: usize = at;
    let mut i: usize = 0;
    let ghost want = parse_fields(bytes@.skip(at as int), count as nat, Seq::<FieldModel>::empty());
    assert(fields_view(fields@) =~= Seq::<FieldModel>::empty());
    while i < count
        invariant
            i <= count,
            next <= bytes@.len(),
            want == parse_fields(bytes@.skip(at as int), count as nat, Seq::<FieldModel>::empty()),
            want == parse_fields(bytes@.skip(next as int), (count - i) as nat, fields_view(fields@)),
        decreases count - i,
    {
        match read_field(bytes, next) {
            None => {
                return None;
            },
            Some((field, after)) => {
                let ghost before = fields_view(fields@);
                let ghost f = field@;
                fields.push(field);
                assert(fields_view(fields@) =~= before.push(f));
                next = after;
            },
        }
        i = i + 1;
    }
    Some((fields, next))
}

/// Reads a request from the body of a frame; nothing where the body is
/// not a request as `wire_request` writes it.
pub fn decode_request(bytes: &[u8]) -> (r: Option<Request>)
    ensures
        match parse_request(bytes@) {
            None => r is None,
            Some(kind) => r matches Some(request) && request@ == kind,
        },
{
    if bytes.len() == 0 {
        return None;
    }
    let what: u8 = bytes[0];
    proof {
        assert(bytes@.skip(0) =~= bytes@);
    }
    if what == 1 {
        match read_text(bytes, 1) {
            None => None,
            Some((id, next)) => if next == bytes.len() {
                Some(Request::ListTools { id })
            } else {
                None
            },
        }
    } else if what == 2 {
        let (request_id, after_id) = match read_text(bytes, 1) {
            None => {
                return None;
            },
            Some(pair) => pair,
        };
        let (tool_name, after_tool) = match read_text(bytes, after_id) {
            None => {
                return None;
            },
            Some(pair) => pair,
        };
        let (count, after_count) = match read_u32(bytes, after_tool) {
            None => {
                return None;
            },
            Some(pair) => pair,
        };
        match read_fields(bytes, after_count, count) {
            None => None,
            Some((arguments, next)) => if next == bytes.len() {
                Some(Request::CallTool(InvocationRequest { request_id, tool_name, arguments }))
            } else {
                None
            },
        }
    } else {
        None
    }
}

/// The byte that stands for a kind of value.
pub open spec fn wire_kind(kind: ValueKind) -> u8 {
    match kind {
        ValueKind::Null => 0,
        ValueKind::Bool => 1,
        ValueKind::Int => 2,
        ValueKind::Text => 3,
    }
}

/// A rule as it is written: the name, the kind, and whether the field is
/// required.
pub open spec fn wire_rule(rule: RuleModel) -> Seq<u8> {
    wire_text(rule.name) + seq![wire_kind(rule.kind), if rule.required { 1u8 } else { 0u8 }]
}

/// Rules as they are written: one after the other.
pub open spec fn wire_rules(rules: Seq<RuleModel>) -> Seq<u8>
    decreases rules.len(),
{
    if rules.len() == 0 {
        Seq::<u8>::empty()
    } else {
        wire_rules(rules.drop_last()) + wire_rule(rules.last())
    }
}

/// A descriptor as it is written: name, description, the number of rules
/// and the rules, then the output schema if there is one.
pub open spec fn wire_descriptor(d: DescriptorModel) -> Seq<u8> {
    wire_text(d.name) + wire_text(d.description) + wire_u32(d.input_schema.len()) + wire_rules(
        d.input_schema,
    ) + (match d.output_schema {
        None => seq![0u8],
        Some(kind) => seq![1u8, wire_kind(kind)],
    })
}

/// Descriptors as they are written: one after the other.
pub open spec fn wire_descriptors(tools: Seq<DescriptorModel>) -> Seq<u8>
    decreases tools.len(),
{
    if tools.len() == 0 {
        Seq::<u8>::empty()
    } else {
        wire_descriptors(tools.drop_last()) + wire_descriptor(tools.last())
    }
}

/// An error as it is written: the name of its kind, the message, and the
/// detail if there is one.
pub open spec fn wire_error(e: ErrorModel) -> Seq<u8> {
    wire_text(e.kind.wire_name()) + wire_text(e.message) + (match e.detail {
        None => seq![0u8],
        Some(d) => seq![1u8] + wire_text(d),
    })
}

/// A response as it is written: a byte for what it is, the id of the
/// request, and the tools, the payload or the error.
pub open spec fn wire_response(r: ResponseModel) -> Seq<u8> {
    match r {
        ResponseModel::Tools { id, tools } => seq![129u8] + wire_text(id) + wire_u32(tools.len())
            + wire_descriptors(tools),
        ResponseModel::Answer(result) => match result.outcome {
            Ok(v) => seq![130u8] + wire_text(result.request_id) + wire_value(v),
            Err(e) => seq![131u8] + wire_text(result.request_id) + wire_error(e),
        },
    }
}

/// The byte that stands for a kind of value.
pub fn kind_byte(kind: ValueKind) -> (r: u8)
    ensures
        r == wire_kind(kind),
{
    match kind {
        ValueKind::Null => 0,
        ValueKind::Bool => 1,
        ValueKind::Int => 2,
        ValueKind::Text => 3,
    }
}

/// Writes rules, one after the other.
pub fn put_rules(out: &mut Vec<u8>, rules: &Vec<FieldRule>)
    ensures
        final(out)@ == old(out)@ + wire_rules(rules_view(rules@)),
{
    let n: usize = rules.len();
    let ghost all = rules_view(rules@);
    let mut i: usize = 0;
    assert(out@ =~= old(out)@ + wire_rules(all.take(0)));
    while i < n
        invariant
            n == rules@.len(),
            all == rules_view(rules@),
            i <= n,
            out@ == old(out)@ + wire_rules(all.take(i as int)),
        decreases n - i,
    {
        let ghost before = out@;
        put_text(out, rules[i].name.as_str());
        out.push(kind_byte(rules[i].kind));
        out.push(if rules[i].required { 1 } else { 0 });
        proof {
            assert(all.take(i + 1).drop_last() =~= all.take(i as int));
            assert(all.take(i + 1).last() == all[i as int]);
            assert(out@ =~= before + wire_rule(all[i as int]));
            assert(out@ =~= old(out)@ + wire_rules(all.take(i + 1)));
        }
        i = i + 1;
    }
    assert(all.take(n as int) =~= all);
}

/// Writes a descriptor.
pub fn put_descriptor(out: &mut Vec<u8>, d: &ToolDescriptor)
    ensures
        final(out)@ == old(out)@ + wire_descriptor(d@),
{
    put_text(out, d.name.as_str());
    put_text(out, d.description.as_str());
    put_u32(out, d.input_schema.len());
    put_rules(out, &d.input_schema);
    match d.output_schema {
        None => {
            out.push(0);
        },
        Some(kind) => {
            out.push(1);
            out.push(kind_byte(kind));
        },
    }
    assert(out@ =~= old(out)@ + wire_descriptor(d@));
}

/// Writes descriptors, one after the other.
pub fn put_descriptors(out: &mut Vec<u8>, tools: &Vec<ToolDescriptor>)
    ensures
        final(out)@ == old(out)@ + wire_descriptors(descriptors_view(tools@)),
{
    let n: usize = tools.len();
    let ghost all = descriptors_view(tools@);
    let mut i: usize = 0;
    assert(out@ =~= old(out)@ + wire_descriptors(all.take(0)));
    while i < n
        invariant
            n == tools@.len(),
            all == descriptors_view(tools@),
            i <= n,
            out@ == old(out)@ + wire_descriptors(all.take(i as int)),
        decreases n - i,
    {
        let ghost before = out@;
        put_descriptor(out, &tools[i]);
        proof {
            assert(all.take(i + 1).drop_last() =~= all.take(i as int));
            assert(all.take(i + 1).last() == all[i as int]);
            assert(out@ =~= old(out)@ + wire_descriptors(all.take(i + 1)));
        }
        i = i + 1;
    }
    assert(all.take(n as int) =~= all);
}

/// Writes an error.
pub fn put_error(out: &mut Vec<u8>, e: &InvocationError)
    ensures
        final(out)@ == old(out)@ + wire_error(e@),
{
    put_text(out, e.kind.name());
    put_text(out, e.message.as_str());
    match &e.detail {
        None => {
            out.push(0);
        },
        Some(d) => {
            out.push(1);
            put_text(out, d.as_str());
        },
    }
    assert(out@ =~= old(out)@ + wire_error(e@));
}

/// Writes a response into the body of a frame.
pub fn encode_response(response: &Response) -> (r: Vec<u8>)
    ensures
        r@ == wire_response(response@),
{
    let mut out: Vec<u8> = Vec::new();
    match response {
        Response::Tools { id, tools } => {
            out.push(129);
            put_text(&mut out, id.as_str());
            put_u32(&mut out, tools.len());
            put_descriptors(&mut out, tools);
        },
        Response::Answer(result) => match &result.outcome {
            Ok(v) => {
                out.push(130);
                put_text(&mut out, result.request_id.as_str());
                put_value(&mut out, v);
            },
            Err(e) => {
                out.push(131);
                put_text(&mut out, result.request_id.as_str());
                put_error(&mut out, e);
            },
        },
    }
    assert(out@ =~= wire_response(response@));
    out
}

/// The answer that goes out in place of a response too long for a frame.
pub open spec fn too_long(id: Seq<char>) -> ResponseModel {
    ResponseModel::Answer(
        ResultModel {
            request_id: id,
            outcome: Err(
                ErrorModel {
                    kind: ErrorKind::RouterInternalError,
                    message: "the response is too long for a frame"@,
                    detail: None,
                },
            ),
        },
    )
}

/// The frame that goes out for a response: the response itself where a
/// frame can carry it; else the answer that says it is too long, under
/// the same id; nothing where the id alone is too long.
pub open spec fn framed_response(response: ResponseModel) -> Option<Seq<u8>> {
    if wire_response(response).len() <= MAX_FRAME_LEN {
        Some(frame_of(wire_response(response)))
    } else if wire_response(too_long(response.id())).len() <= MAX_FRAME_LEN {
        Some(frame_of(wire_response(too_long(response.id()))))
    } else {
        None
    }
}

/// Writes the frame that goes out for a response.
pub fn frame_response(response: &Response) -> (r: Option<Vec<u8>>)
    ensures
        match framed_response(response@) {
            Some(bytes) => r matches Some(frame) && frame@ == bytes,
            None => r is None,
        },
{
    let body = encode_response(response);
    if body.len() <= MAX_FRAME_LEN {
        return Some(encode_frame(body.as_slice()));
    }
    let short = Response::Answer(
        InvocationResult {
            request_id: copy_text(response.request_id()),
            outcome: Err(
                InvocationError::plain(
                    ErrorKind::RouterInternalError,
                    "the response is too long for a frame",
                ),
            ),
        },
    );
    let body = encode_response(&short);
    if body.len() <= MAX_FRAME_LEN {
        Some(encode_frame(body.as_slice()))
    } else {
        None
    }
}

} // verus!
