//! Protocol-buffer wire format: a message is a sequence of fields, each a key
//! (field number and wire type, as a varint) followed by its value.
use vstd::prelude::*;
use vstd::slice::{slice_subrange, slice_to_vec};

verus! {

#[verifier::external_type_specification]
#[verifier::external_body]
pub struct ExDecodeError(prost::DecodeError);

/// The LEB128 encoding of `v`: seven bits per byte, low bits first, the high
/// bit set on every byte but the last.
pub open spec fn varint_bytes(v: nat) -> Seq<u8>
    decreases v,
{
    if v < 128 {
        seq![v as u8]
    } else {
        seq![(v % 128 + 128) as u8] + varint_bytes(v / 128)
    }
}

/// Reads a LEB128 varint of at most `limit` bytes from the front of `s`: its
/// value and its length in bytes.
pub open spec fn varint_prefix(s: Seq<u8>, limit: nat) -> Option<(nat, nat)>
    decreases limit,
{
    if limit == 0 || s.len() == 0 {
        None
    } else if s[0] < 128 {
        Some((s[0] as nat, 1nat))
    } else {
        match varint_prefix(s.drop_first(), (limit - 1) as nat) {
            Some((v, n)) => Some(((s[0] - 128) as nat + 128 * v, n + 1)),
            None => None,
        }
    }
}

/// A varint at the front of `s` as protobuf accepts it: at most ten bytes,
/// with a value that fits in 64 bits.
pub open spec fn varint_parse(s: Seq<u8>) -> Option<(nat, nat)> {
    match varint_prefix(s, 10) {
        Some((v, n)) => if v < 0x1_0000_0000_0000_0000 {
            Some((v, n))
        } else {
            None
        },
        None => None,
    }
}

/// A varint read from the front of `s` takes at least one and at most `limit` bytes of it.
pub proof fn lemma_varint_prefix_len(s: Seq<u8>, limit: nat)
    ensures
        varint_prefix(s, limit) matches Some((v, n)) ==> 1 <= n <= s.len() && n <= limit,
    decreases limit,
{
    if limit > 0 && s.len() > 0 && s[0] >= 128 {
        lemma_varint_prefix_len(s.drop_first(), (limit - 1) as nat);
    }
}

/// Relies on prost::encoding::encode_varint: appends the LEB128 encoding of `v`.
#[verifier::external_body]
fn put_varint(buf: &mut Vec<u8>, v: u64)
    ensures
        final(buf)@ == old(buf)@ + varint_bytes(v as nat),
{
    prost::encoding::encode_varint(v, buf)
}

/// Relies on prost::encoding::decode_varint: reads one varint from the front
/// of `buf` (at most ten bytes, value within 64 bits) and returns it with the
/// bytes that follow it.
#[verifier::external_body]
fn read_varint<'a>(buf: &'a [u8]) -> (r: Result<(u64, &'a [u8]), prost::DecodeError>)
    ensures
        match r {
            Ok((v, rest)) => {
                &&& rest@.len() <= buf@.len()
                &&& varint_parse(buf@) == Some((v as nat, (buf@.len() - rest@.len()) as nat))
                &&& rest@ == buf@.subrange(buf@.len() - rest@.len(), buf@.len() as int)
            },
            Err(_) => varint_parse(buf@) is None,
        },
{
    let mut rest = buf;
    let v = prost::encoding::decode_varint(&mut rest)?;
    Ok((v, rest))
}

/// Relies on prost::encoding::encode_key: appends the key of a field, the
/// varint of its number times eight plus its wire type. The number must be
/// a valid tag (1 to 2^29 - 1).
#[verifier::external_body]
fn put_key(buf: &mut Vec<u8>, number: u32, value: &WireValue)
    requires
        1 <= number < 0x2000_0000,
    ensures
        final(buf)@ == old(buf)@ + varint_bytes(number as nat * 8 + wire_type(value@)),
{
    let wire_type = match value {
        WireValue::Varint(_) => prost::encoding::WireType::Varint,
        WireValue::Fixed64(_) => prost::encoding::WireType::SixtyFourBit,
        WireValue::Bytes(_) => prost::encoding::WireType::LengthDelimited,
        WireValue::Fixed32(_) => prost::encoding::WireType::ThirtyTwoBit,
    };
    prost::encoding::encode_key(number, wire_type, buf)
}

/// Relies on prost::encoding::decode_key: reads a field key from the front
/// of `buf` and returns its field number, its wire type and the bytes that
/// follow. The key must fit in 32 bits, name a field number of at least 1
/// and a wire type from 0 to 5.
#[verifier::external_body]
fn read_key<'a>(buf: &'a [u8]) -> (r: Result<(u32, u64, &'a [u8]), prost::DecodeError>)
    ensures
        match r {
            Ok((number, wt, rest)) => {
                &&& rest@.len() <= buf@.len()
                &&& 1 <= number
                &&& wt <= 5
                &&& number as nat * 8 + wt <= 0xFFFF_FFFF
                &&& varint_parse(buf@) == Some(
                    ((number as nat * 8 + wt) as nat, (buf@.len() - rest@.len()) as nat),
                )
                &&& rest@ == buf@.subrange(buf@.len() - rest@.len(), buf@.len() as int)
            },
            Err(_) => match varint_parse(buf@) {
                None => true,
                Some((key, _)) => key > 0xFFFF_FFFF || key < 8 || key % 8 > 5,
            },
        },
{
    let mut rest = buf;
    let (number, wire_type) = prost::encoding::decode_key(&mut rest)?;
    Ok((number, wire_type as u64, rest))
}

/// The value of a field, by wire type.
#[derive(Debug, Clone, PartialEq, Eq)]
pub enum WireValue {
    /// Wire type 0.
    Varint(u64),
    /// Wire type 1: eight raw bytes.
    Fixed64(Vec<u8>),
    /// Wire type 2: a length-prefixed byte string.
    Bytes(Vec<u8>),
    /// Wire type 5: four raw bytes.
    Fixed32(Vec<u8>),
}

/// The mathematical value of a field.
pub enum WireData {
    Varint(u64),
    Fixed64(Seq<u8>),
    Bytes(Seq<u8>),
    Fixed32(Seq<u8>),
}

impl View for WireValue {
    type V = WireData;

    open spec fn view(&self) -> WireData {
        match self {
            WireValue::Varint(v) => WireData::Varint(*v),
            WireValue::Fixed64(b) => WireData::Fixed64(b@),
            WireValue::Bytes(b) => WireData::Bytes(b@),
            WireValue::Fixed32(b) => WireData::Fixed32(b@),
        }
    }
}

/// One field of a message.
#[derive(Debug, Clone, PartialEq, Eq)]
pub struct Field {
    pub number: u32,
    pub value: WireValue,
}

/// The mathematical value of a field.
pub struct FieldData {
    pub number: u32,
    pub data: WireData,
}

impl View for Field {
    type V = FieldData;

    open spec fn view(&self) -> FieldData {
        FieldData { number: self.number, data: self.value@ }
    }
}

/// The fields of a message, as values.
pub open spec fn fields_view(fs: Seq<Field>) -> Seq<FieldData> {
    fs.map_values(|f: Field| f@)
}

/// The wire type number of a value.
pub open spec fn wire_type(d: WireData) -> nat {
    match d {
        WireData::Varint(_) => 0,
        WireData::Fixed64(_) => 1,
        WireData::Bytes(_) => 2,
        WireData::Fixed32(_) => 5,
    }
}

/// The encoding of one field.
pub open spec fn field_bytes(f: FieldData) -> Seq<u8> {
    varint_bytes(f.number as nat * 8 + wire_type(f.data)) + match f.data {
        WireData::Varint(v) => varint_bytes(v as nat),
        WireData::Fixed64(b) => b,
        WireData::Bytes(b) => varint_bytes(b.len()) + b,
        WireData::Fixed32(b) => b,
    }
}

/// The encoding of a message: its fields' encodings in order.
pub open spec fn message_bytes(fs: Seq<FieldData>) -> Seq<u8>
    decreases fs.len(),
{
    if fs.len() == 0 {
        Seq::empty()
    } else {
        message_bytes(fs.drop_last()) + field_bytes(fs.last())
    }
}

/// Reads the value of a field of wire type `wt` from the front of `rest`: the
/// value and its length in bytes. Wire types 3 and 4 (groups), 6 and 7 are refused.
pub open spec fn value_parse(wt: nat, rest: Seq<u8>) -> Option<(WireData, nat)> {
    if wt == 0 {
        match varint_parse(rest) {
            Some((v, n)) => Some((WireData::Varint(v as u64), n)),
            None => None,
        }
    } else if wt == 1 {
        if rest.len() >= 8 {
            Some((WireData::Fixed64(rest.take(8)), 8nat))
        } else {
            None
        }
    } else if wt == 2 {
        match varint_parse(rest) {
            Some((l, n)) => if n + l <= rest.len() {
                Some((WireData::Bytes(rest.subrange(n as int, (n + l) as int)), n + l))
            } else {
                None
            },
            None => None,
        }
    } else if wt == 5 {
        if rest.len() >= 4 {
            Some((WireData::Fixed32(rest.take(4)), 4nat))
        } else {
            None
        }
    } else {
        None
    }
}

/// Reads one field from the front of `s`: the field and its length in bytes.
/// The key must name a field number of at least 1 and fit in 32 bits.
pub open spec fn field_parse(s: Seq<u8>) -> Option<(FieldData, nat)> {
    match varint_parse(s) {
        Some((key, n1)) => if key > 0xFFFF_FFFF || key < 8 {
            None
        } else {
            match value_parse(key % 8, s.subrange(n1 as int, s.len() as int)) {
                Some((d, n2)) => Some((FieldData { number: (key / 8) as u32, data: d }, n1 + n2)),
                None => None,
            }
        },
        None => None,
    }
}

/// Reads a whole message: its fields in order, or `None` where `s` is not a
/// well-formed sequence of fields.
pub open spec fn message_parse(s: Seq<u8>) -> Option<Seq<FieldData>>
    decreases s.len(),
{
    if s.len() == 0 {
        Some(Seq::empty())
    } else {
        match field_parse(s) {
            Some((f, n)) => if 0 < n <= s.len() {
                match message_parse(s.subrange(n as int, s.len() as int)) {
                    Some(fs) => Some(seq![f] + fs),
                    None => None,
                }
            } else {
                None
            },
            None => None,
        }
    }
}

/// The value of the last varint field numbered `n`, if any.
pub open spec fn last_varint(fs: Seq<FieldData>, n: u32) -> Option<u64>
    decreases fs.len(),
{
    if fs.len() == 0 {
        None
    } else {
        match fs.last().data {
            WireData::Varint(v) => if fs.last().number == n {
                Some(v)
            } else {
                last_varint(fs.drop_last(), n)
            },
            _ => last_varint(fs.drop_last(), n),
        }
    }
}

/// The value of the last length-delimited field numbered `n`, if any.
pub open spec fn last_bytes(fs: Seq<FieldData>, n: u32) -> Option<Seq<u8>>
    decreases fs.len(),
{
    if fs.len() == 0 {
        None
    } else {
        match fs.last().data {
            WireData::Bytes(b) => if fs.last().number == n {
                Some(b)
            } else {
                last_bytes(fs.drop_last(), n)
            },
            _ => last_bytes(fs.drop_last(), n),
        }
    }
}

/// Appends the encoding of one field.
pub fn encode_field(buf: &mut Vec<u8>, f: &Field)
    requires
        1 <= f.number < 0x2000_0000,
    ensures
        final(buf)@ == old(buf)@ + field_bytes(f@),
{
    put_key(buf, f.number, &f.value);
    match &f.value {
        WireValue::Varint(v) => {
            put_varint(buf, *v);
        },
        WireValue::Bytes(b) => {
            put_varint(buf, b.len() as u64);
            append_bytes(buf, b);
        },
        WireValue::Fixed64(b) => {
            append_bytes(buf, b);
        },
        WireValue::Fixed32(b) => {
            append_bytes(buf, b);
        },
    }
    assert(buf@ =~= old(buf)@ + field_bytes(f@));
}

/// Appends `b` to `buf`.
fn append_bytes(buf: &mut Vec<u8>, b: &Vec<u8>)
    ensures
        final(buf)@ == old(buf)@ + b@,
{
    let ghost start = buf@;
    let mut k: usize = 0;
    while k < b.len()
        invariant
            k <= b@.len(),
            buf@ == start + b@.take(k as int),
        decreases b@.len() - k,
    {
        buf.push(b[k]);
        k = k + 1;
        assert(buf@ =~= start + b@.take(k as int));
    }
    assert(b@.take(k as int) =~= b@);
}

/// Encodes a message: its fields in order.
pub fn encode_message(fields: &Vec<Field>) -> (r: Vec<u8>)
    requires
        forall|i: int| 0 <= i < fields@.len() ==> 1 <= #[trigger] fields@[i].number < 0x2000_0000,
    ensures
        r@ == message_bytes(fields_view(fields@)),
{
    let mut out: Vec<u8> = Vec::new();
    let mut k: usize = 0;
    while k < fields.len()
        invariant
            k <= fields@.len(),
            forall|i: int|
                0 <= i < fields@.len() ==> 1 <= #[trigger] fields@[i].number < 0x2000_0000,
            out@ == message_bytes(fields_view(fields@.take(k as int))),
        decreases fields@.len() - k,
    {
        encode_field(&mut out, &fields[k]);
        proof {
            assert(fields_view(fields@.take(k + 1)).drop_last() =~= fields_view(
                fields@.take(k as int),
            ));
        }
        k = k + 1;
    }
    assert(fields@.take(k as int) =~= fields@);
    out
}

/// Reads the value of a field of wire type `wt` from the front of `rest`;
/// returns it with the bytes after it.
fn parse_value<'a>(wt: u64, rest: &'a [u8]) -> (r: Option<(WireValue, &'a [u8])>)
    ensures
        match r {
            Some((v, tail)) => {
                &&& tail@.len() <= rest@.len()
                &&& value_parse(wt as nat, rest@) == Some((v@, (rest@.len() - tail@.len()) as nat))
                &&& tail@ == rest@.subrange(rest@.len() - tail@.len(), rest@.len() as int)
            },
            None => value_parse(wt as nat, rest@) is None,
        },
{
    if wt == 0 {
        match read_varint(rest) {
            Ok((v, tail)) => Some((WireValue::Varint(v), tail)),
            Err(_) => None,
        }
    } else if wt == 1 {
        if rest.len() >= 8 {
            let b = slice_to_vec(slice_subrange(rest, 0, 8));
            let tail = slice_subrange(rest, 8, rest.len());
            assert(b@ =~= rest@.take(8));
            Some((WireValue::Fixed64(b), tail))
        } else {
            None
        }
    } else if wt == 2 {
        match read_varint(rest) {
            Ok((l, body)) => {
                if l <= body.len() as u64 {
                    let ghost n = (rest@.len() - body@.len()) as nat;
                    let b = slice_to_vec(slice_subrange(body, 0, l as usize));
                    let tail = slice_subrange(body, l as usize, body.len());
                    assert(b@ =~= rest@.subrange(n as int, (n + l) as int));
                    assert(tail@ =~= rest@.subrange(rest@.len() - tail@.len(), rest@.len() as int));
                    Some((WireValue::Bytes(b), tail))
                } else {
                    None
                }
            },
            Err(_) => None,
        }
    } else if wt == 5 {
        if rest.len() >= 4 {
            let b = slice_to_vec(slice_subrange(rest, 0, 4));
            let tail = slice_subrange(rest, 4, rest.len());
            assert(b@ =~= rest@.take(4));
            Some((WireValue::Fixed32(b), tail))
        } else {
            None
        }
    } else {
        None
    }
}

/// Reads one field from the front of `s`; returns it with the bytes after it.
pub fn parse_field<'a>(s: &'a [u8]) -> (r: Option<(Field, &'a [u8])>)
    ensures
        match r {
            Some((f, tail)) => {
                &&& field_parse(s@) == Some((f@, (s@.len() - tail@.len()) as nat))
                &&& tail@.len() < s@.len()
                &&& tail@ == s@.subrange(s@.len() - tail@.len(), s@.len() as int)
            },
            None => field_parse(s@) is None,
        },
{
    let (number, wt, rest) = match read_key(s) {
        Ok(k) => k,
        Err(_) => return None,
    };
    let ghost key = (number as nat * 8 + wt) as nat;
    let ghost n1 = (s@.len() - rest@.len()) as nat;
    proof {
        lemma_varint_prefix_len(s@, 10);
        assert(key % 8 == wt && key / 8 == number as nat) by (nonlinear_arith)
            requires
                key == number as nat * 8 + wt,
                wt < 8,
        ;
    }
    match parse_value(wt, rest) {
        Some((value, tail)) => {
            assert(tail@ =~= s@.subrange(s@.len() - tail@.len(), s@.len() as int));
            Some((Field { number, value }, tail))
        },
        None => None,
    }
}

/// Reads a whole message; `None` where `s` is not a well-formed sequence of fields.
pub fn parse_message(s: &[u8]) -> (r: Option<Vec<Field>>)
    ensures
        match r {
            Some(fs) => message_parse(s@) == Some(fields_view(fs@)),
            None => message_parse(s@) is None,
        },
{
    let mut rest: &[u8] = s;
    let mut out: Vec<Field> = Vec::new();
    assert(fields_view(out@) + Seq::<FieldData>::empty() =~= fields_view(out@));
    while rest.len() > 0
        invariant
            message_parse(s@) == match message_parse(rest@) {
                Some(fs) => Some(fields_view(out@) + fs),
                None => None,
            },
        decreases rest@.len(),
    {
        match parse_field(rest) {
            Some((f, tail)) => {
                let ghost before = out@;
                out.push(f);
                proof {
                    assert(tail@ == rest@.subrange(
                        (rest@.len() - tail@.len()) as int,
                        rest@.len() as int,
                    ));
                    assert(fields_view(out@) =~= fields_view(before).push(f@));
                    match message_parse(tail@) {
                        Some(fs) => {
                            assert(fields_view(before) + (seq![f@] + fs) =~= fields_view(out@)
                                + fs);
                        },
                        None => {},
                    }
                }
                rest = tail;
            },
            None => {
                return None;
            },
        }
    }
    assert(fields_view(out@) + Seq::<FieldData>::empty() =~= fields_view(out@));
    Some(out)
}

/// The value of the last varint field numbered `number`, if any.
pub fn find_varint(fields: &Vec<Field>, number: u32) -> (r: Option<u64>)
    ensures
        r == last_varint(fields_view(fields@), number),
{
    let mut i: usize = fields.len();
    assert(fields@.take(i as int) =~= fields@);
    while i > 0
        invariant
            i <= fields@.len(),
            last_varint(fields_view(fields@), number) == last_varint(
                fields_view(fields@.take(i as int)),
                number,
            ),
        decreases i,
    {
        assert(fields_view(fields@.take(i as int)).drop_last() =~= fields_view(
            fields@.take(i - 1),
        ));
        i = i - 1;
        if fields[i].number == number {
            if let WireValue::Varint(v) = &fields[i].value {
                return Some(*v);
            }
        }
    }
    None
}

/// The value of the last length-delimited field numbered `number`, if any.
pub fn find_bytes(fields: &Vec<Field>, number: u32) -> (r: Option<Vec<u8>>)
    ensures
        match r {
            Some(b) => last_bytes(fields_view(fields@), number) == Some(b@),
            None => last_bytes(fields_view(fields@), number) is None,
        },
{
    let mut i: usize = fields.len();
    assert(fields@.take(i as int) =~= fields@);
    while i > 0
        invariant
            i <= fields@.len(),
            last_bytes(fields_view(fields@), number) == last_bytes(
                fields_view(fields@.take(i as int)),
                number,
            ),
        decreases i,
    {
        assert(fields_view(fields@.take(i as int)).drop_last() =~= fields_view(
            fields@.take(i - 1),
        ));
        i = i - 1;
        if fields[i].number == number {
            if let WireValue::Bytes(b) = &fields[i].value {
                return Some(b.clone());
            }
        }
    }
    None
}

/// `128` to the power `k`.
pub open spec fn pow128(k: nat) -> nat
    decreases k,
{
    if k == 0 {
        1
    } else {
        128 * pow128((k - 1) as nat)
    }
}

/// A value below `128^k` takes at most `k` varint bytes.
proof fn lemma_varint_len_bound(v: nat, k: nat)
    requires
        k >= 1,
        v < pow128(k),
    ensures
        1 <= varint_bytes(v).len() <= k,
    decreases v,
{
    if v >= 128 {
        if k == 1 {
            assert(pow128(1) == 128 * pow128(0));
        } else {
            let p = pow128((k - 1) as nat);
            assert(v / 128 < p) by (nonlinear_arith)
                requires
                    v < 128 * p,
            ;
            lemma_varint_len_bound(v / 128, (k - 1) as nat);
        }
    }
}

/// A 64-bit value takes at most ten varint bytes.
pub proof fn lemma_varint_len(v: nat)
    requires
        v < 0x1_0000_0000_0000_0000,
    ensures
        1 <= varint_bytes(v).len() <= 10,
{
    assert(pow128(0) == 1);
    assert(pow128(1) == 128);
    assert(pow128(2) == 16384);
    assert(pow128(3) == 2097152);
    assert(pow128(4) == 268435456);
    assert(pow128(5) == 34359738368);
    assert(pow128(6) == 4398046511104);
    assert(pow128(7) == 562949953421312);
    assert(pow128(8) == 72057594037927936);
    assert(pow128(9) == 9223372036854775808);
    assert(pow128(10) == 1180591620717411303424);
    lemma_varint_len_bound(v, 10);
}

/// Reading a varint back from its encoding gives the value and the length.
pub proof fn lemma_varint_round_trip(v: nat, rest: Seq<u8>, limit: nat)
    requires
        varint_bytes(v).len() <= limit,
    ensures
        varint_prefix(varint_bytes(v) + rest, limit) == Some((v, varint_bytes(v).len())),
    decreases v,
{
    let s = varint_bytes(v) + rest;
    if v >= 128 {
        let tail = varint_bytes(v / 128);
        assert(s.drop_first() =~= tail + rest);
        lemma_varint_round_trip(v / 128, rest, (limit - 1) as nat);
        assert((v % 128 + 128) as u8 as nat == v % 128 + 128);
        assert(v % 128 + 128 * (v / 128) == v);
    }
}

/// A varint of a 64-bit value as protobuf reads it back.
pub proof fn lemma_varint_parse(v: nat, rest: Seq<u8>)
    requires
        v < 0x1_0000_0000_0000_0000,
    ensures
        varint_parse(varint_bytes(v) + rest) == Some((v, varint_bytes(v).len())),
{
    lemma_varint_len(v);
    lemma_varint_round_trip(v, rest, 10);
}

/// Whether a field can be encoded and read back: its number is at least 1 and
/// fits a 32-bit key, and fixed-width values have their width.
pub open spec fn field_wf(f: FieldData) -> bool {
    &&& 1 <= f.number < 0x2000_0000
    &&& match f.data {
        WireData::Fixed64(b) => b.len() == 8,
        WireData::Fixed32(b) => b.len() == 4,
        WireData::Bytes(b) => b.len() < 0x1_0000_0000_0000_0000,
        WireData::Varint(_) => true,
    }
}

/// Reading a field back from its encoding gives the field and its length.
pub proof fn lemma_field_round_trip(f: FieldData, rest: Seq<u8>)
    requires
        field_wf(f),
    ensures
        field_parse(field_bytes(f) + rest) == Some((f, field_bytes(f).len())),
{
    let wt = wire_type(f.data);
    let key = f.number as nat * 8 + wt;
    let kb = varint_bytes(key);
    let payload = match f.data {
        WireData::Varint(v) => varint_bytes(v as nat),
        WireData::Fixed64(b) => b,
        WireData::Bytes(b) => varint_bytes(b.len()) + b,
        WireData::Fixed32(b) => b,
    };
    let s = field_bytes(f) + rest;
    assert(s =~= kb + (payload + rest));
    lemma_varint_parse(key, payload + rest);
    assert(key % 8 == wt && key / 8 == f.number as nat) by (nonlinear_arith)
        requires
            key == f.number as nat * 8 + wt,
            wt < 8,
    ;
    let after = s.subrange(kb.len() as int, s.len() as int);
    assert(after =~= payload + rest);
    match f.data {
        WireData::Varint(v) => {
            lemma_varint_parse(v as nat, rest);
        },
        WireData::Fixed64(b) => {
            assert(after.take(8) =~= b);
        },
        WireData::Bytes(b) => {
            let lb = varint_bytes(b.len());
            assert(after =~= lb + (b + rest));
            lemma_varint_parse(b.len(), b + rest);
            assert(after.subrange(lb.len() as int, (lb.len() + b.len()) as int) =~= b);
        },
        WireData::Fixed32(b) => {
            assert(after.take(4) =~= b);
        },
    }
}

/// The encoding of a message is its first field's encoding followed by the rest's.
proof fn lemma_message_bytes_front(fs: Seq<FieldData>)
    requires
        fs.len() > 0,
    ensures
        message_bytes(fs) == field_bytes(fs[0]) + message_bytes(fs.drop_first()),
    decreases fs.len(),
{
    if fs.len() == 1 {
        assert(fs.drop_last() =~= Seq::<FieldData>::empty());
        assert(fs.drop_first() =~= Seq::<FieldData>::empty());
        assert(message_bytes(fs.drop_last()) == Seq::<u8>::empty());
        assert(message_bytes(fs.drop_first()) == Seq::<u8>::empty());
        assert(fs.last() == fs[0]);
        assert(message_bytes(fs) =~= field_bytes(fs[0]));
    } else {
        lemma_message_bytes_front(fs.drop_last());
        assert(fs.drop_last().drop_first() =~= fs.drop_first().drop_last());
        assert(fs.drop_first().last() == fs.last());
        assert(message_bytes(fs) =~= field_bytes(fs[0]) + message_bytes(fs.drop_first()));
    }
}

/// Decoding an encoded message gives its fields back.
pub proof fn lemma_message_round_trip(fs: Seq<FieldData>)
    requires
        forall|i: int| 0 <= i < fs.len() ==> field_wf(#[trigger] fs[i]),
    ensures
        message_parse(message_bytes(fs)) == Some(fs),
    decreases fs.len(),
{
    if fs.len() == 0 {
        assert(message_bytes(fs) =~= Seq::<u8>::empty());
    } else {
        let s = message_bytes(fs);
        lemma_message_bytes_front(fs);
        let tail = message_bytes(fs.drop_first());
        lemma_field_round_trip(fs[0], tail);
        let n = field_bytes(fs[0]).len();
        assert(s.subrange(n as int, s.len() as int) =~= tail);
        lemma_message_round_trip(fs.drop_first());
        assert(seq![fs[0]] + fs.drop_first() =~= fs);
    }
}

} // verus!
