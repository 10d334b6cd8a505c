//! Protocol-buffer messages as bytes: fields, one after the other.

use vstd::prelude::*;
use vstd::slice::*;

verus! {

/// The bytes of the number `v`: seven bits to a byte, lowest first, and the top bit set on all
/// bytes but the last.
pub open spec fn varint(v: nat) -> Seq<u8>
    decreases v,
{
    if v < 128 {
        seq![v as u8]
    } else {
        seq![(v % 128 + 128) as u8] + varint(v / 128)
    }
}

/// The number that `b` starts with, and what follows it. `read` bytes of the number were read
/// before: it has ten bytes at most, and fits in 64 bits.
pub open spec fn read_varint(b: Seq<u8>, read: nat) -> Option<(nat, Seq<u8>)>
    decreases b.len(),
{
    if b.len() == 0 || read >= 10 {
        None
    } else if b[0] < 128 {
        if read == 9 && b[0] >= 2 {
            None
        } else {
            Some((b[0] as nat, b.skip(1)))
        }
    } else {
        match read_varint(b.skip(1), read + 1) {
            Some((v, rest)) => Some(((b[0] - 128 + 128 * v) as nat, rest)),
            None => None,
        }
    }
}

/// Wraps `prost::encoding::encode_varint`: it claims that the bytes of the number are appended.
#[verifier::external_body]
fn put_varint(value: u64, out: &mut Vec<u8>)
    ensures
        final(out)@ == old(out)@ + varint(value as nat),
{
    prost::encoding::encode_varint(value, out)
}

/// Wraps `prost::encoding::decode_varint`: it claims that the number at the start of the bytes
/// is read and the rest handed back, and that it fails exactly where no number stands there.
#[verifier::external_body]
fn get_varint(bytes: &[u8]) -> (read: Option<(u64, &[u8])>)
    ensures
        read is Some <==> read_varint(bytes@, 0) is Some,
        read matches Some((value, rest)) ==> read_varint(bytes@, 0) == Some((value as nat, rest@)),
{
    let mut rest = bytes;
    match prost::encoding::decode_varint(&mut rest) {
        Ok(value) => Some((value, rest)),
        Err(_) => None,
    }
}

/// The value of a field is written as a number.
pub const WIRE_VARINT: u8 = 0;

/// The value of a field is eight bytes.
pub const WIRE_64_BIT: u8 = 1;

/// The value of a field is bytes, with their number before them.
pub const WIRE_LENGTH: u8 = 2;

/// A group of fields starts.
pub const WIRE_START_GROUP: u8 = 3;

/// A group of fields ends.
pub const WIRE_END_GROUP: u8 = 4;

/// The value of a field is four bytes.
pub const WIRE_32_BIT: u8 = 5;

/// The key that `b` starts with (the number of a field and how its value is written), and what
/// follows it.
pub open spec fn read_key(b: Seq<u8>) -> Option<(nat, u8, Seq<u8>)> {
    match read_varint(b, 0) {
        Some((key, rest)) => if key <= u32::MAX && key % 8 <= 5 && key / 8 >= 1 {
            Some((key / 8, (key % 8) as u8, rest))
        } else {
            None
        },
        None => None,
    }
}

/// Wraps `prost::encoding::decode_key`: it claims that the key at the start of the bytes is read
/// and the rest handed back, and that it fails exactly where no key stands there.
#[verifier::external_body]
fn get_key(bytes: &[u8]) -> (read: Option<(u32, u8, &[u8])>)
    ensures
        read is Some <==> read_key(bytes@) is Some,
        read matches Some((tag, wire, rest)) ==> read_key(bytes@) == Some(
            (tag as nat, wire, rest@),
        ),
{
    let mut rest = bytes;
    match prost::encoding::decode_key(&mut rest) {
        Ok((tag, wire)) => Some((tag, wire as u8, rest)),
        Err(_) => None,
    }
}

/// The value of a field.
pub enum Value {
    Number(nat),
    Bytes(Seq<u8>),
    /// A value of a kind that no message here holds.
    Other,
}

/// A field of a message.
pub struct Field {
    pub tag: nat,
    pub value: Value,
}

/// What follows the `n` bytes that `b` starts with.
pub open spec fn after(b: Seq<u8>, n: nat) -> Option<Seq<u8>> {
    if n <= b.len() {
        Some(b.skip(n as int))
    } else {
        None
    }
}

/// The bytes that `b` starts with, their number before them, and what follows.
pub open spec fn read_bytes(b: Seq<u8>) -> Option<(Seq<u8>, Seq<u8>)> {
    match read_varint(b, 0) {
        Some((len, rest)) => if len <= rest.len() {
            Some((rest.take(len as int), rest.skip(len as int)))
        } else {
            None
        },
        None => None,
    }
}

/// What follows the value that `b` starts with, where it is no group.
pub open spec fn skip_plain(wire: u8, b: Seq<u8>) -> Option<Seq<u8>> {
    if wire == WIRE_VARINT {
        match read_varint(b, 0) {
            Some((_, rest)) => Some(rest),
            None => None,
        }
    } else if wire == WIRE_64_BIT {
        after(b, 8)
    } else if wire == WIRE_LENGTH {
        match read_bytes(b) {
            Some((_, rest)) => Some(rest),
            None => None,
        }
    } else if wire == WIRE_32_BIT {
        after(b, 4)
    } else {
        None
    }
}

/// What follows the groups that are still open at the start of `b`, the innermost last. A field
/// may stand in fewer than `limit` groups.
pub open spec fn skip_groups(open: Seq<nat>, b: Seq<u8>, limit: nat) -> Option<Seq<u8>>
    decreases b.len(),
{
    if open.len() == 0 {
        Some(b)
    } else {
        match read_key(b) {
            None => None,
            Some((tag, wire, rest)) => {
                proof {
                    lemma_read_key(b);
                    lemma_skip_plain(wire, rest);
                }
                if wire == WIRE_END_GROUP {
                    if tag == open.last() {
                        skip_groups(open.drop_last(), rest, limit)
                    } else {
                        None
                    }
                } else if open.len() >= limit {
                    None
                } else if wire == WIRE_START_GROUP {
                    skip_groups(open.push(tag), rest, limit)
                } else {
                    match skip_plain(wire, rest) {
                        Some(rest) => skip_groups(open, rest, limit),
                        None => None,
                    }
                }
            },
        }
    }
}

/// The field that `b` starts with, and what follows it.
pub open spec fn read_field(b: Seq<u8>, limit: nat) -> Option<(Field, Seq<u8>)> {
    match read_key(b) {
        None => None,
        Some((tag, wire, rest)) => {
            if wire == WIRE_VARINT {
                match read_varint(rest, 0) {
                    Some((v, rest)) => Some((Field { tag, value: Value::Number(v) }, rest)),
                    None => None,
                }
            } else if wire == WIRE_LENGTH {
                match read_bytes(rest) {
                    Some((v, rest)) => Some((Field { tag, value: Value::Bytes(v) }, rest)),
                    None => None,
                }
            } else if wire == WIRE_START_GROUP {
                match skip_groups(seq![tag], rest, limit) {
                    Some(rest) => Some((Field { tag, value: Value::Other }, rest)),
                    None => None,
                }
            } else {
                match skip_plain(wire, rest) {
                    Some(rest) => Some((Field { tag, value: Value::Other }, rest)),
                    None => None,
                }
            }
        },
    }
}

/// The fields that `b` is made of.
pub open spec fn read_fields(b: Seq<u8>, limit: nat) -> Option<Seq<Field>>
    decreases b.len(),
{
    if b.len() == 0 {
        Some(seq![])
    } else {
        match read_field(b, limit) {
            None => None,
            Some((field, rest)) => {
                proof {
                    lemma_read_field(b, limit);
                }
                match read_fields(rest, limit) {
                    Some(fields) => Some(seq![field] + fields),
                    None => None,
                }
            },
        }
    }
}

/// The bytes of a field.
pub open spec fn field_bytes(field: Field) -> Seq<u8> {
    match field.value {
        Value::Number(v) => varint(field.tag * 8 + WIRE_VARINT as nat) + varint(v),
        Value::Bytes(v) => varint(field.tag * 8 + WIRE_LENGTH as nat) + varint(v.len()) + v,
        Value::Other => seq![],
    }
}

/// The bytes of a message with these fields.
pub open spec fn message_bytes(fields: Seq<Field>) -> Seq<u8>
    decreases fields.len(),
{
    if fields.len() == 0 {
        seq![]
    } else {
        message_bytes(fields.drop_last()) + field_bytes(fields.last())
    }
}

/// Whether a field can be written: its number is one that fields may have, and its value fits.
pub open spec fn writable(field: Field) -> bool {
    &&& 1 <= field.tag < 0x2000_0000
    &&& match field.value {
        Value::Number(v) => v <= u64::MAX,
        Value::Bytes(v) => v.len() <= u64::MAX,
        Value::Other => false,
    }
}

/// The bytes of a message hold those of each of its fields.
pub proof fn lemma_value_len(fields: Seq<Field>, i: int)
    requires
        0 <= i < fields.len(),
    ensures
        fields[i].value matches Value::Bytes(v) ==> v.len() <= message_bytes(fields).len(),
    decreases fields.len(),
{
    if i < fields.len() - 1 {
        lemma_value_len(fields.drop_last(), i);
    }
}

/// A number takes at least one byte.
pub proof fn lemma_read_varint(b: Seq<u8>, read: nat)
    ensures
        read_varint(b, read) matches Some((v, rest)) ==> rest.len() < b.len(),
    decreases b.len(),
{
    if b.len() > 0 && read < 10 && b[0] >= 128 {
        lemma_read_varint(b.skip(1), read + 1);
    }
}

/// A key takes at least one byte.
pub proof fn lemma_read_key(b: Seq<u8>)
    ensures
        read_key(b) matches Some((tag, wire, rest)) ==> rest.len() < b.len(),
{
    lemma_read_varint(b, 0);
}

/// Skipping a value does not add bytes.
pub proof fn lemma_skip_plain(wire: u8, b: Seq<u8>)
    ensures
        skip_plain(wire, b) matches Some(rest) ==> rest.len() <= b.len(),
{
    lemma_read_varint(b, 0);
}

/// Skipping groups does not add bytes.
pub proof fn lemma_skip_groups(open: Seq<nat>, b: Seq<u8>, limit: nat)
    ensures
        skip_groups(open, b, limit) matches Some(rest) ==> rest.len() <= b.len(),
    decreases b.len(),
{
    if open.len() > 0 {
        if let Some((tag, wire, rest)) = read_key(b) {
            lemma_read_key(b);
            lemma_skip_plain(wire, rest);
            lemma_skip_groups(open.drop_last(), rest, limit);
            lemma_skip_groups(open.push(tag), rest, limit);
            if let Some(more) = skip_plain(wire, rest) {
                lemma_skip_groups(open, more, limit);
            }
        }
    }
}

/// A field takes at least one byte.
pub proof fn lemma_read_field(b: Seq<u8>, limit: nat)
    ensures
        read_field(b, limit) matches Some((field, rest)) ==> rest.len() < b.len(),
{
    if let Some((tag, wire, rest)) = read_key(b) {
        lemma_read_key(b);
        lemma_read_varint(rest, 0);
        lemma_skip_plain(wire, rest);
        lemma_skip_groups(seq![tag], rest, limit);
    }
}

/// The value of a field, in memory.
pub enum RawValue {
    Number(u64),
    Bytes(Vec<u8>),
    Other,
}

impl View for RawValue {
    type V = Value;

    open spec fn view(&self) -> Value {
        match self {
            RawValue::Number(v) => Value::Number(*v as nat),
            RawValue::Bytes(v) => Value::Bytes(v@),
            RawValue::Other => Value::Other,
        }
    }
}

/// A field of a message, in memory.
pub struct RawField {
    pub tag: u32,
    pub value: RawValue,
}

impl View for RawField {
    type V = Field;

    open spec fn view(&self) -> Field {
        Field { tag: self.tag as nat, value: self.value@ }
    }
}

/// The fields that a list stands for.
pub open spec fn field_views(list: Seq<RawField>) -> Seq<Field> {
    list.map_values(|f: RawField| f@)
}

/// Appends a field that holds a number.
pub fn put_number(tag: u32, value: u64, out: &mut Vec<u8>)
    ensures
        final(out)@ == old(out)@ + field_bytes(
            Field { tag: tag as nat, value: Value::Number(value as nat) },
        ),
{
    put_varint(tag as u64 * 8 + WIRE_VARINT as u64, out);
    put_varint(value, out);
    assert(out@ =~= old(out)@ + field_bytes(
        Field { tag: tag as nat, value: Value::Number(value as nat) },
    ));
}

/// Appends a field that holds bytes.
pub fn put_bytes(tag: u32, value: &[u8], out: &mut Vec<u8>)
    ensures
        final(out)@ == old(out)@ + field_bytes(
            Field { tag: tag as nat, value: Value::Bytes(value@) },
        ),
{
    put_varint(tag as u64 * 8 + WIRE_LENGTH as u64, out);
    put_varint(value.len() as u64, out);
    let ghost head = out@;
    let mut i: usize = 0;
    while i < value.len()
        invariant
            i <= value@.len(),
            out@ == head + value@.take(i as int),
        decreases value@.len() - i,
    {
        out.push(value[i]);
        i = i + 1;
        assert(head + value@.take(i as int) =~= (head + value@.take(i - 1)).push(value@[i - 1]));
    }
    assert(out@ =~= old(out)@ + field_bytes(
        Field { tag: tag as nat, value: Value::Bytes(value@) },
    ));
}

/// Reads bytes with their number before them.
fn get_bytes(bytes: &[u8]) -> (read: Option<(&[u8], &[u8])>)
    ensures
        read is Some <==> read_bytes(bytes@) is Some,
        read matches Some((value, rest)) ==> read_bytes(bytes@) == Some((value@, rest@)),
{
    match get_varint(bytes) {
        Some((len, rest)) => {
            if len <= rest.len() as u64 {
                let n: usize = len as usize;
                Some((slice_subrange(rest, 0, n), slice_subrange(rest, n, rest.len())))
            } else {
                None
            }
        },
        None => None,
    }
}

/// Drops the first `n` bytes.
fn drop_bytes(bytes: &[u8], n: usize) -> (rest: Option<&[u8]>)
    ensures
        rest is Some <==> after(bytes@, n as nat) is Some,
        rest matches Some(r) ==> after(bytes@, n as nat) == Some(r@),
{
    if n <= bytes.len() {
        Some(slice_subrange(bytes, n, bytes.len()))
    } else {
        None
    }
}

/// Drops the value that the bytes start with, where it is no group.
fn drop_plain(wire: u8, bytes: &[u8]) -> (rest: Option<&[u8]>)
    ensures
        rest is Some <==> skip_plain(wire, bytes@) is Some,
        rest matches Some(r) ==> skip_plain(wire, bytes@) == Some(r@),
{
    if wire == WIRE_VARINT {
        match get_varint(bytes) {
            Some((_, rest)) => Some(rest),
            None => None,
        }
    } else if wire == WIRE_64_BIT {
        drop_bytes(bytes, 8)
    } else if wire == WIRE_LENGTH {
        match get_bytes(bytes) {
            Some((_, rest)) => Some(rest),
            None => None,
        }
    } else if wire == WIRE_32_BIT {
        drop_bytes(bytes, 4)
    } else {
        None
    }
}

/// A list of field numbers.
spec fn tags(open: Seq<u32>) -> Seq<nat> {
    open.map_values(|t: u32| t as nat)
}

/// Drops the group `tag`, which was just opened.
fn drop_group(tag: u32, bytes: &[u8], limit: usize) -> (rest: Option<&[u8]>)
    ensures
        rest is Some <==> skip_groups(seq![tag as nat], bytes@, limit as nat) is Some,
        rest matches Some(r) ==> skip_groups(seq![tag as nat], bytes@, limit as nat) == Some(r@),
{
    let mut open: Vec<u32> = Vec::new();
    open.push(tag);
    assert(tags(open@) =~= seq![tag as nat]);
    let mut rest = bytes;
    while open.len() > 0
        invariant
            skip_groups(seq![tag as nat], bytes@, limit as nat) == skip_groups(
                tags(open@),
                rest@,
                limit as nat,
            ),
        decreases rest@.len(),
    {
        let ghost before = open@;
        proof {
            lemma_read_key(rest@);
        }
        match get_key(rest) {
            None => {
                return None;
            },
            Some((inner, wire, more)) => {
                proof {
                    lemma_skip_plain(wire, more@);
                    assert(tags(before).last() == before.last() as nat);
                }
                if wire == WIRE_END_GROUP {
                    if inner != open[open.len() - 1] {
                        return None;
                    }
                    let _ = open.pop();
                    assert(tags(open@) =~= tags(before).drop_last());
                    rest = more;
                } else if open.len() >= limit {
                    return None;
                } else if wire == WIRE_START_GROUP {
                    open.push(inner);
                    assert(tags(open@) =~= tags(before).push(inner as nat));
                    rest = more;
                } else {
                    match drop_plain(wire, more) {
                        Some(r) => {
                            rest = r;
                        },
                        None => {
                            return None;
                        },
                    }
                }
            },
        }
    }
    Some(rest)
}

/// Reads the field that the bytes start with.
fn get_field(bytes: &[u8], limit: usize) -> (read: Option<(RawField, &[u8])>)
    ensures
        read is Some <==> read_field(bytes@, limit as nat) is Some,
        read matches Some((field, rest)) ==> read_field(bytes@, limit as nat) == Some(
            (field@, rest@),
        ),
{
    match get_key(bytes) {
        None => None,
        Some((tag, wire, rest)) => {
            if wire == WIRE_VARINT {
                match get_varint(rest) {
                    Some((v, rest)) => Some((RawField { tag, value: RawValue::Number(v) }, rest)),
                    None => None,
                }
            } else if wire == WIRE_LENGTH {
                match get_bytes(rest) {
                    Some((v, rest)) => Some(
                        (RawField { tag, value: RawValue::Bytes(slice_to_vec(v)) }, rest),
                    ),
                    None => None,
                }
            } else if wire == WIRE_START_GROUP {
                match drop_group(tag, rest, limit) {
                    Some(rest) => Some((RawField { tag, value: RawValue::Other }, rest)),
                    None => None,
                }
            } else {
                match drop_plain(wire, rest) {
                    Some(rest) => Some((RawField { tag, value: RawValue::Other }, rest)),
                    None => None,
                }
            }
        },
    }
}

/// Reads the fields that the bytes are made of.
pub fn get_fields(bytes: &[u8], limit: usize) -> (fields: Option<Vec<RawField>>)
    ensures
        fields is Some <==> read_fields(bytes@, limit as nat) is Some,
        fields matches Some(list) ==> read_fields(bytes@, limit as nat) == Some(
            field_views(list@),
        ),
{
    let mut list: Vec<RawField> = Vec::new();
    let mut rest = bytes;
    proof {
        if let Some(all) = read_fields(bytes@, limit as nat) {
            assert(field_views(list@) + all =~= all);
        }
    }
    while rest.len() > 0
        invariant
            read_fields(bytes@, limit as nat) == (match read_fields(rest@, limit as nat) {
                Some(more) => Some(field_views(list@) + more),
                None => None,
            }),
        decreases rest@.len(),
    {
        proof {
            lemma_read_field(rest@, limit as nat);
        }
        match get_field(rest, limit) {
            None => {
                return None;
            },
            Some((field, more)) => {
                let ghost before = list@;
                list.push(field);
                proof {
                    assert(field_views(list@) =~= field_views(before).push(field@));
                    if let Some(tail) = read_fields(more@, limit as nat) {
                        assert(field_views(before) + (seq![field@] + tail) =~= field_views(list@)
                            + tail);
                    }
                }
                rest = more;
            },
        }
    }
    assert(field_views(list@) + seq![] =~= field_views(list@));
    Some(list)
}

/// The numbers that fit after `read` bytes of a number.
spec fn room(read: nat) -> nat
    decreases 10 - read,
{
    if read >= 9 {
        2
    } else {
        128 * room(read + 1)
    }
}

proof fn lemma_varint_read(v: nat, rest: Seq<u8>, read: nat)
    requires
        read <= 9,
        v < room(read),
    ensures
        read_varint(varint(v) + rest, read) == Some((v, rest)),
    decreases v,
{
    let b = varint(v) + rest;
    if v < 128 {
        assert(b[0] == v);
        assert(b.skip(1) =~= rest);
    } else {
        assert(read < 9);
        assert(v / 128 < room(read + 1)) by (nonlinear_arith)
            requires
                v < 128 * room(read + 1),
        ;
        lemma_varint_read(v / 128, rest, read + 1);
        assert(b[0] == v % 128 + 128);
        assert(b.skip(1) =~= varint(v / 128) + rest);
    }
}

/// Reading gives back the number that was written, and what follows it.
pub proof fn lemma_varint_round_trip(v: nat, rest: Seq<u8>)
    requires
        v <= u64::MAX,
    ensures
        read_varint(varint(v) + rest, 0) == Some((v, rest)),
{
    reveal_with_fuel(room, 11);
    assert(room(0) == 0x1_0000_0000_0000_0000);
    lemma_varint_read(v, rest, 0);
}

/// Reading gives back the field that was written, and what follows it.
pub proof fn lemma_field_round_trip(field: Field, rest: Seq<u8>, limit: nat)
    requires
        writable(field),
    ensures
        read_field(field_bytes(field) + rest, limit) == Some((field, rest)),
        field_bytes(field).len() > 0,
{
    let b = field_bytes(field) + rest;
    match field.value {
        Value::Number(v) => {
            let key = field.tag * 8 + WIRE_VARINT as nat;
            assert(b =~= varint(key) + (varint(v) + rest));
            lemma_varint_round_trip(key, varint(v) + rest);
            lemma_varint_round_trip(v, rest);
        },
        Value::Bytes(v) => {
            let key = field.tag * 8 + WIRE_LENGTH as nat;
            assert(b =~= varint(key) + (varint(v.len()) + (v + rest)));
            lemma_varint_round_trip(key, varint(v.len()) + (v + rest));
            lemma_varint_round_trip(v.len(), v + rest);
            assert((v + rest).take(v.len() as int) =~= v);
            assert((v + rest).skip(v.len() as int) =~= rest);
        },
        Value::Other => {},
    }
}

/// Reading gives back the fields that were written, and then those that follow.
proof fn lemma_fields_then(fields: Seq<Field>, rest: Seq<u8>, limit: nat)
    requires
        forall|i: int| 0 <= i < fields.len() ==> #[trigger] writable(fields[i]),
    ensures
        read_fields(message_bytes(fields) + rest, limit) == (match read_fields(rest, limit) {
            Some(more) => Some(fields + more),
            None => None,
        }),
    decreases fields.len(),
{
    if fields.len() == 0 {
        assert(message_bytes(fields) + rest =~= rest);
        if let Some(more) = read_fields(rest, limit) {
            assert(fields + more =~= more);
        }
    } else {
        let last = fields.last();
        let tail = field_bytes(last) + rest;
        assert(writable(last));
        assert forall|i: int| 0 <= i < fields.drop_last().len() implies #[trigger] writable(
            fields.drop_last()[i],
        ) by {
            assert(writable(fields[i]));
        }
        lemma_fields_then(fields.drop_last(), tail, limit);
        lemma_field_round_trip(last, rest, limit);
        assert(message_bytes(fields) + rest =~= message_bytes(fields.drop_last()) + tail);
        if let Some(more) = read_fields(rest, limit) {
            assert(fields.drop_last() + (seq![last] + more) =~= fields + more);
        }
    }
}

/// Reading a message gives back the fields that it was written with.
pub proof fn lemma_message_round_trip(fields: Seq<Field>, limit: nat)
    requires
        forall|i: int| 0 <= i < fields.len() ==> #[trigger] writable(fields[i]),
    ensures
        read_fields(message_bytes(fields), limit) == Some(fields),
{
    lemma_fields_then(fields, seq![], limit);
    assert(message_bytes(fields) + seq![] =~= message_bytes(fields));
    assert(fields + seq![] =~= fields);
}

/// A number below 128 is one byte. A larger one is its lowest seven bits, with the top bit set,
/// and then the bytes of the rest of it.
pub proof fn lemma_varint(high: nat, low: nat)
    requires
        low < 128,
    ensures
        varint(low) == seq![low as u8],
        high > 0 ==> varint(128 * high + low) == seq![(low + 128) as u8] + varint(high),
{
    let v = 128 * high + low;
    assert(v % 128 == low && v / 128 == high);
}

/// A field is its number and how its value is written, in one number, and then the value: a
/// number, or bytes with their count before them. A message is its fields, one after the other.
pub proof fn lemma_fields_written(fields: Seq<Field>, tag: nat, number: nat, bytes: Seq<u8>)
    ensures
        field_bytes(Field { tag, value: Value::Number(number) }) == varint(8 * tag) + varint(
            number,
        ),
        field_bytes(Field { tag, value: Value::Bytes(bytes) }) == varint(8 * tag + 2) + varint(
            bytes.len(),
        ) + bytes,
        message_bytes(seq![]).len() == 0,
        forall|f: Field| #[trigger]
            message_bytes(fields.push(f)) == message_bytes(fields) + field_bytes(f),
{
    assert forall|f: Field| #[trigger]
        message_bytes(fields.push(f)) == message_bytes(fields) + field_bytes(f) by {
        assert(fields.push(f).drop_last() =~= fields);
    }
}

/// A field whose value is eight bytes or four is passed over, with its value. Bytes that end
/// before the value does are no field.
pub proof fn lemma_passed_over(tag: nat, value: Seq<u8>, rest: Seq<u8>, limit: nat)
    requires
        1 <= tag < 0x2000_0000,
    ensures
        value.len() == 8 ==> read_field(varint(8 * tag + 1) + value + rest, limit) == Some(
            (Field { tag, value: Value::Other }, rest),
        ),
        value.len() == 4 ==> read_field(varint(8 * tag + 5) + value + rest, limit) == Some(
            (Field { tag, value: Value::Other }, rest),
        ),
        value.len() < 8 ==> read_field(varint(8 * tag + 1) + value, limit) is None,
        value.len() < 4 ==> read_field(varint(8 * tag + 5) + value, limit) is None,
{
    let long = value + rest;
    lemma_varint_round_trip(8 * tag + 1, long);
    lemma_varint_round_trip(8 * tag + 5, long);
    lemma_varint_round_trip(8 * tag + 1, value);
    lemma_varint_round_trip(8 * tag + 5, value);
    assert(varint(8 * tag + 1) + value + rest =~= varint(8 * tag + 1) + long);
    assert(varint(8 * tag + 5) + value + rest =~= varint(8 * tag + 5) + long);
    assert((8 * tag + 1) % 8 == 1 && (8 * tag + 1) / 8 == tag);
    assert((8 * tag + 5) % 8 == 5 && (8 * tag + 5) / 8 == tag);
    if value.len() == 8 {
        assert(long.skip(8) =~= rest);
    }
    if value.len() == 4 {
        assert(long.skip(4) =~= rest);
    }
}

/// No field has the number zero, none has a value of another kind, and none has more bytes than
/// there are.
pub proof fn lemma_no_field(tag: nat, kind: nat, rest: Seq<u8>, len: nat, limit: nat)
    requires
        tag < 0x2000_0000,
        kind < 8,
        len <= u64::MAX,
    ensures
        tag == 0 || kind > 5 || kind == 4 ==> read_field(varint(8 * tag + kind) + rest, limit)
            is None,
        rest.len() < len ==> read_field(varint(8 * tag + 2) + varint(len) + rest, limit) is None,
{
    lemma_varint_round_trip(8 * tag + kind, rest);
    assert((8 * tag + kind) % 8 == kind && (8 * tag + kind) / 8 == tag);
    let more = varint(len) + rest;
    lemma_varint_round_trip(8 * tag + 2, more);
    lemma_varint_round_trip(len, rest);
    assert(varint(8 * tag + 2) + varint(len) + rest =~= varint(8 * tag + 2) + more);
    assert((8 * tag + 2) % 8 == 2 && (8 * tag + 2) / 8 == tag);
}

} // verus!
