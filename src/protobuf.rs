//! The protobuf wire format, as far as this protocol's messages use it:
//! varints, and messages as lists of varint or length-delimited fields.
use vstd::prelude::*;
use crate::response::copy_range;
use crate::request::append_bytes;

verus! {

/// The varint encoding of `v`: seven bits per byte, low bits first, the high
/// bit set on every byte but the last.
pub open spec fn varint(v: u64) -> Seq<u8>
    decreases v,
{
    if v < 128 {
        seq![v as u8]
    } else {
        seq![(v % 128 + 128) as u8] + varint(v / 128)
    }
}

/// The value and length of a varint at the start of `s`, reading at most `k`
/// more bytes; where the `k`-th byte is the last one allowed, it must be 0 or 1
/// (so that ten bytes hold no more than 64 bits).
#[verifier::opaque]
pub open spec fn varint_read(s: Seq<u8>, k: nat) -> Option<(int, nat)>
    decreases k,
{
    if k == 0 || s.len() == 0 {
        None
    } else if s[0] < 128 {
        if k == 1 && s[0] >= 2 {
            None
        } else {
            Some((s[0] as int, 1))
        }
    } else {
        match varint_read(s.drop_first(), (k - 1) as nat) {
            Some((v, n)) => Some(((s[0] - 128) + 128 * v, n + 1)),
            None => None,
        }
    }
}

/// The value of the varint at the start of `s` and the number of bytes after it.
pub open spec fn varint_prefix(s: Seq<u8>) -> Option<(u64, nat)> {
    match varint_read(s, 10) {
        Some((v, n)) => Some((v as u64, (s.len() - n) as nat)),
        None => None,
    }
}

/// The bound below which `k` bytes of a varint suffice.
pub open spec fn varint_cap(k: nat) -> int
    decreases k,
{
    if k <= 1 {
        2
    } else {
        128 * varint_cap((k - 1) as nat)
    }
}

proof fn lemma_varint_read(v: int, w: u64, rest: Seq<u8>, k: nat)
    requires
        v == w as int,
        1 <= k,
        v < varint_cap(k),
    ensures
        varint_read(varint(w) + rest, k) == Some((v, varint(w).len())),
        varint_read(varint(w) + rest, k) matches Some((x, n)) && 0 <= x,
    decreases k,
{
    reveal(varint_read);
    let s = varint(w) + rest;
    if w < 128 {
        assert(s[0] == w as u8);
        if k == 1 {
            assert(v < 2);
        }
    } else {
        if k <= 1 {
            assert(false);
        }
        assert(varint_cap(k) == 128 * varint_cap((k - 1) as nat));
        assert(w / 128 < varint_cap((k - 1) as nat));
        lemma_varint_read((w / 128) as int, w / 128, rest, (k - 1) as nat);
        assert(s.drop_first() =~= varint(w / 128) + rest);
        assert(s[0] == (w % 128 + 128) as u8);
    }
}

/// A varint, whatever follows it, reads back as its value.
pub proof fn lemma_varint_prefix(w: u64, rest: Seq<u8>)
    ensures
        varint_prefix(varint(w) + rest) == Some((w, rest.len())),
{
    reveal_with_fuel(varint_cap, 11);
    assert(varint_cap(10) == 0x1_0000_0000_0000_0000);
    lemma_varint_read(w as int, w, rest, 10);
}

/// Appends the varint encoding of `v`.
///
/// Relies on `prost::encoding::encode_varint`, which writes LEB128: seven bits
/// per byte, low bits first, the high bit set on all bytes but the last.
#[verifier::external_body]
pub(crate) fn put_varint(out: &mut Vec<u8>, v: u64)
    ensures
        final(out)@ == old(out)@ + varint(v),
{
    prost::encoding::encode_varint(v, out)
}

/// Reads the varint that starts at `b[pos]`: its value and the number of
/// bytes that follow it.
///
/// Relies on `prost::encoding::decode_varint`, which reads at most ten bytes,
/// the last without its high bit, and refuses a tenth byte above 1.
#[verifier::external_body]
pub(crate) fn get_varint(b: &[u8], pos: usize) -> (r: Option<(u64, usize)>)
    requires
        pos <= b@.len(),
    ensures
        match r {
            Some((v, rem)) => varint_prefix(b@.subrange(pos as int, b@.len() as int)) == Some(
                (v, rem as nat),
            ),
            None => varint_prefix(b@.subrange(pos as int, b@.len() as int)) is None,
        },
{
    let mut rest: &[u8] = &b[pos..];
    match prost::encoding::decode_varint(&mut rest) {
        Ok(v) => Some((v, rest.len())),
        Err(_) => None,
    }
}

/// A field of a message, as its bytes give it.
pub enum WireField {
    Varint(u64, u64),
    Bytes(u64, Seq<u8>),
}

/// A field of a message: its number and its value.
#[derive(PartialEq, Eq, Clone, Debug)]
pub enum Field {
    /// A varint field.
    Varint(u64, u64),
    /// A length-delimited field: bytes, a string or a nested message.
    Bytes(u64, Vec<u8>),
}

impl View for Field {
    type V = WireField;

    open spec fn view(&self) -> WireField {
        match self {
            Field::Varint(t, v) => WireField::Varint(*t, *v),
            Field::Bytes(t, b) => WireField::Bytes(*t, b@),
        }
    }
}

/// Field numbers that fit in a key beside the wire type.
pub open spec fn valid_tag(t: u64) -> bool {
    1 <= t <= 0x1FFF_FFFF
}

/// The key at the start of `s` and the number of bytes after it, where it
/// is a key: a varint of at most 32 bits whose low three bits name a wire
/// type (0 to 5) and whose field number is at least 1.
pub open spec fn key_prefix(s: Seq<u8>) -> Option<(u64, nat)> {
    match varint_prefix(s) {
        Some((k, rem)) => if k <= u32::MAX && k % 8 < 6 && k / 8 >= 1 {
            Some((k, rem))
        } else {
            None
        },
        None => None,
    }
}

/// Appends the key of a field: its number and wire type, varint or
/// length-delimited.
///
/// Relies on `prost::encoding::encode_key`, which writes the varint of
/// `tag << 3 | wire_type`.
#[verifier::external_body]
fn put_key(out: &mut Vec<u8>, tag: u32, length_delimited: bool)
    requires
        1 <= tag <= 0x1FFF_FFFF,
    ensures
        final(out)@ == old(out)@ + varint((tag * 8 + if length_delimited { 2int } else { 0int }) as u64),
{
    let wire_type = if length_delimited {
        prost::encoding::WireType::LengthDelimited
    } else {
        prost::encoding::WireType::Varint
    };
    prost::encoding::encode_key(tag, wire_type, out)
}

/// Reads the key that starts at `b[pos]`: its field number, its wire type
/// and the number of bytes that follow it.
///
/// Relies on `prost::encoding::decode_key`, which reads a varint and refuses
/// it above 32 bits, with wire type 6 or 7, or with field number 0.
#[verifier::external_body]
fn get_key(b: &[u8], pos: usize) -> (r: Option<(u32, u8, usize)>)
    requires
        pos <= b@.len(),
    ensures
        match r {
            Some((t, w, rem)) => key_prefix(b@.subrange(pos as int, b@.len() as int)) == Some(
                ((t * 8 + w) as u64, rem as nat),
            ) && w < 6,
            None => key_prefix(b@.subrange(pos as int, b@.len() as int)) is None,
        },
{
    let mut rest: &[u8] = &b[pos..];
    match prost::encoding::decode_key(&mut rest) {
        Ok((tag, wire_type)) => Some((tag, wire_type as u8, rest.len())),
        Err(_) => None,
    }
}

/// Reads the length prefix that starts at `b[pos]`: the length and the
/// number of bytes that follow the prefix.
///
/// Relies on `prost::decode_length_delimiter`, which reads a varint and
/// refuses it where it does not fit a `usize`.
#[verifier::external_body]
fn get_length(b: &[u8], pos: usize) -> (r: Option<(usize, usize)>)
    requires
        pos <= b@.len(),
    ensures
        match r {
            Some((n, rem)) => varint_prefix(b@.subrange(pos as int, b@.len() as int)) == Some(
                (n as u64, rem as nat),
            ),
            None => match varint_prefix(b@.subrange(pos as int, b@.len() as int)) {
                Some((v, _)) => v > usize::MAX,
                None => true,
            },
        },
{
    let mut rest: &[u8] = &b[pos..];
    match prost::decode_length_delimiter(&mut rest) {
        Ok(n) => Some((n, rest.len())),
        Err(_) => None,
    }
}

/// The bytes of one field: its key (number and wire type), then its value.
pub open spec fn field_bytes(f: WireField) -> Seq<u8> {
    match f {
        WireField::Varint(t, v) => varint((t * 8) as u64) + varint(v),
        WireField::Bytes(t, b) => varint((t * 8 + 2) as u64) + varint(b.len() as u64) + b,
    }
}

/// The bytes of a message made of the given fields, in order.
pub open spec fn fields_bytes(fs: Seq<WireField>) -> Seq<u8>
    decreases fs.len(),
{
    if fs.len() == 0 {
        Seq::empty()
    } else {
        field_bytes(fs[0]) + fields_bytes(fs.drop_first())
    }
}

/// The fields of a message, or `None` where its bytes are not a list of
/// varint and length-delimited fields.
pub open spec fn parse_fields(s: Seq<u8>) -> Option<Seq<WireField>>
    decreases s.len(),
{
    if s.len() == 0 {
        Some(Seq::empty())
    } else {
        match key_prefix(s) {
            Some((key, rem)) => {
                if rem >= s.len() {
                    None
                } else {
                    let after = s.subrange(s.len() - rem, s.len() as int);
                    match varint_prefix(after) {
                        Some((v, rem2)) => {
                            if rem2 >= rem {
                                None
                            } else if key % 8 == 0 {
                                match parse_fields(s.subrange(s.len() - rem2, s.len() as int)) {
                                    Some(fs) => Some(seq![WireField::Varint(key / 8, v)] + fs),
                                    None => None,
                                }
                            } else if key % 8 == 2 && v <= rem2 {
                                let start = s.len() - rem2;
                                match parse_fields(s.subrange(start + v, s.len() as int)) {
                                    Some(fs) => Some(
                                        seq![WireField::Bytes(key / 8, s.subrange(start, start + v))]
                                            + fs,
                                    ),
                                    None => None,
                                }
                            } else {
                                None
                            }
                        },
                        None => None,
                    }
                }
            },
            None => None,
        }
    }
}

#[verifier::rlimit(80)]
proof fn lemma_parse_varint_field(t: u64, v: u64, tail: Seq<u8>)
    requires
        valid_tag(t),
    ensures
        parse_fields(field_bytes(WireField::Varint(t, v)) + tail) == match parse_fields(tail) {
            Some(fs) => Some(seq![WireField::Varint(t, v)] + fs),
            None => None::<Seq<WireField>>,
        },
{
    let key = (t * 8) as u64;
    let s = field_bytes(WireField::Varint(t, v)) + tail;
    assert(s =~= varint(key) + (varint(v) + tail));
    lemma_varint_prefix(key, varint(v) + tail);
    let rem = (varint(v) + tail).len();
    assert(varint(key).len() > 0) by {
        reveal_with_fuel(varint, 2);
    }
    assert(varint(v).len() > 0) by {
        reveal_with_fuel(varint, 2);
    }
    let after = s.subrange(s.len() - rem, s.len() as int);
    assert(after =~= varint(v) + tail);
    lemma_varint_prefix(v, tail);
    assert(s.subrange(s.len() - tail.len(), s.len() as int) =~= tail);
    assert(key % 8 == 0 && key / 8 == t);
    assert(key_prefix(s) == Some((key, rem)));
}

#[verifier::rlimit(80)]
proof fn lemma_parse_bytes_field(t: u64, b: Seq<u8>, tail: Seq<u8>)
    requires
        valid_tag(t),
        b.len() <= u64::MAX,
    ensures
        parse_fields(field_bytes(WireField::Bytes(t, b)) + tail) == match parse_fields(tail) {
            Some(fs) => Some(seq![WireField::Bytes(t, b)] + fs),
            None => None::<Seq<WireField>>,
        },
{
    let key = (t * 8 + 2) as u64;
    let n = b.len() as u64;
    let s = field_bytes(WireField::Bytes(t, b)) + tail;
    assert(s =~= varint(key) + (varint(n) + (b + tail)));
    lemma_varint_prefix(key, varint(n) + (b + tail));
    let rem = (varint(n) + (b + tail)).len();
    assert(varint(key).len() > 0) by {
        reveal_with_fuel(varint, 2);
    }
    assert(varint(n).len() > 0) by {
        reveal_with_fuel(varint, 2);
    }
    let after = s.subrange(s.len() - rem, s.len() as int);
    assert(after =~= varint(n) + (b + tail));
    lemma_varint_prefix(n, b + tail);
    let start = s.len() - (b + tail).len();
    assert(s.subrange(start, start + n) =~= b);
    assert(s.subrange(start + n, s.len() as int) =~= tail);
    assert(key % 8 == 2 && key / 8 == t);
    assert(key_prefix(s) == Some((key, rem)));
}

/// The fields may stand in a message: their numbers fit beside a wire type.
pub open spec fn fields_encodable(fs: Seq<WireField>) -> bool {
    forall|i: int|
        0 <= i < fs.len() ==> match #[trigger] fs[i] {
            WireField::Varint(t, _) => valid_tag(t),
            WireField::Bytes(t, b) => valid_tag(t) && b.len() <= u64::MAX,
        }
}

/// A message made of fields reads back as those fields.
pub proof fn lemma_fields_round_trip(fs: Seq<WireField>)
    requires
        fields_encodable(fs),
    ensures
        parse_fields(fields_bytes(fs)) == Some(fs),
    decreases fs.len(),
{
    if fs.len() == 0 {
        return;
    }
    let tail = fields_bytes(fs.drop_first());
    assert(fields_encodable(fs.drop_first())) by {
        assert forall|i: int| 0 <= i < fs.drop_first().len() implies match #[trigger] fs.drop_first()[i] {
            WireField::Varint(t, _) => valid_tag(t),
            WireField::Bytes(t, b) => valid_tag(t) && b.len() <= u64::MAX,
        } by {
            assert(fs.drop_first()[i] == fs[i + 1]);
        }
    }
    lemma_fields_round_trip(fs.drop_first());
    assert(match fs[0] {
        WireField::Varint(t, _) => valid_tag(t),
        WireField::Bytes(t, b) => valid_tag(t) && b.len() <= u64::MAX,
    });
    match fs[0] {
        WireField::Varint(t, v) => {
            lemma_parse_varint_field(t, v, tail);
        },
        WireField::Bytes(t, b) => {
            lemma_parse_bytes_field(t, b, tail);
        },
    }
    assert(seq![fs[0]] + fs.drop_first() =~= fs);
}

/// The views of a list of fields.
pub open spec fn fields_view(fs: Seq<Field>) -> Seq<WireField> {
    fs.map_values(|f: Field| f@)
}

/// Appends the bytes of one field.
pub fn put_field(out: &mut Vec<u8>, f: &Field)
    requires
        match f@ {
            WireField::Varint(t, _) => valid_tag(t),
            WireField::Bytes(t, b) => valid_tag(t),
        },
    ensures
        final(out)@ == old(out)@ + field_bytes(f@),
{
    match f {
        Field::Varint(t, v) => {
            put_key(out, *t as u32, false);
            put_varint(out, *v);
        },
        Field::Bytes(t, b) => {
            put_key(out, *t as u32, true);
            put_varint(out, b.len() as u64);
            append_bytes(out, b);
        },
    }
    assert(out@ =~= old(out)@ + field_bytes(f@));
}

proof fn lemma_fields_bytes_push(fs: Seq<WireField>, f: WireField)
    ensures
        fields_bytes(fs.push(f)) == fields_bytes(fs) + field_bytes(f),
    decreases fs.len(),
{
    if fs.len() == 0 {
        assert(fs.push(f).drop_first() =~= Seq::<WireField>::empty());
        assert(fields_bytes(Seq::<WireField>::empty()) =~= Seq::<u8>::empty());
        assert(fields_bytes(fs) =~= Seq::<u8>::empty());
        assert(fs.push(f)[0] == f);
        assert(fields_bytes(fs.push(f)) == field_bytes(f) + fields_bytes(fs.push(f).drop_first()));
        assert(fields_bytes(fs.push(f)) =~= field_bytes(f));
    } else {
        assert(fs.push(f).drop_first() =~= fs.drop_first().push(f));
        lemma_fields_bytes_push(fs.drop_first(), f);
        assert(fields_bytes(fs.push(f)) =~= fields_bytes(fs) + field_bytes(f));
    }
}

/// The bytes of a message made of the given fields, in order.
pub fn encode_fields(fs: &Vec<Field>) -> (r: Vec<u8>)
    requires
        forall|i: int|
            0 <= i < fs@.len() ==> match #[trigger] fs@[i]@ {
                WireField::Varint(t, _) => valid_tag(t),
                WireField::Bytes(t, _) => valid_tag(t),
            },
    ensures
        r@ == fields_bytes(fields_view(fs@)),
{
    let mut out: Vec<u8> = Vec::new();
    let mut i: usize = 0;
    while i < fs.len()
        invariant
            i <= fs@.len(),
            out@ == fields_bytes(fields_view(fs@.subrange(0, i as int))),
            forall|i: int|
                0 <= i < fs@.len() ==> match #[trigger] fs@[i]@ {
                    WireField::Varint(t, _) => valid_tag(t),
                    WireField::Bytes(t, _) => valid_tag(t),
                },
        decreases fs@.len() - i,
    {
        put_field(&mut out, &fs[i]);
        proof {
            assert(fields_view(fs@.subrange(0, i + 1)) =~= fields_view(fs@.subrange(0, i as int)).push(
                fs@[i as int]@,
            ));
            lemma_fields_bytes_push(fields_view(fs@.subrange(0, i as int)), fs@[i as int]@);
        }
        i = i + 1;
    }
    assert(fs@.subrange(0, i as int) =~= fs@);
    out
}

/// The fields of a message, or `None` where its bytes are not a list of
/// varint and length-delimited fields.
pub fn decode_fields(b: &[u8]) -> (r: Option<Vec<Field>>)
    ensures
        match r {
            Some(fs) => parse_fields(b@) == Some(fields_view(fs@)),
            None => parse_fields(b@) is None,
        },
{
    let mut out: Vec<Field> = Vec::new();
    let mut pos: usize = 0;
    assert(b@.subrange(0, b@.len() as int) =~= b@);
    assert(forall|x: Seq<WireField>| fields_view(out@) + x =~= x);
    while pos < b.len()
        invariant
            pos <= b@.len(),
            parse_fields(b@) == match parse_fields(b@.subrange(pos as int, b@.len() as int)) {
                Some(fs) => Some(fields_view(out@) + fs),
                None => None::<Seq<WireField>>,
            },
        decreases b@.len() - pos,
    {
        let ghost s = b@.subrange(pos as int, b@.len() as int);
        let (tag, wire, rem) = match get_key(b, pos) {
            Some(x) => x,
            None => return None,
        };
        let ghost key = (tag * 8 + wire) as u64;
        assert(key % 8 == wire as u64 && key / 8 == tag as u64);
        if rem >= b.len() - pos {
            return None;
        }
        let after_key = b.len() - rem;
        assert(s.subrange(s.len() - rem, s.len() as int) =~= b@.subrange(after_key as int, b@.len() as int));
        let ghost before = out@;
        if wire == 0 {
            let (v, rem2) = match get_varint(b, after_key) {
                Some(x) => x,
                None => return None,
            };
            if rem2 >= rem {
                return None;
            }
            let start = b.len() - rem2;
            assert(s.subrange(s.len() - rem2, s.len() as int) =~= b@.subrange(start as int, b@.len() as int));
            out.push(Field::Varint(tag as u64, v));
            pos = start;
        } else if wire == 2 {
            let (v, rem2) = match get_length(b, after_key) {
                Some(x) => x,
                None => return None,
            };
            if rem2 >= rem || v > rem2 {
                return None;
            }
            let start = b.len() - rem2;
            assert(s.subrange(s.len() - rem2, s.len() as int) =~= b@.subrange(start as int, b@.len() as int));
            let end = start + v;
            assert(s.subrange(s.len() - rem2 + v, s.len() as int) =~= b@.subrange(end as int, b@.len() as int));
            assert(s.subrange(s.len() - rem2, s.len() - rem2 + v) =~= b@.subrange(start as int, end as int));
            let data = copy_range(b, start, end);
            out.push(Field::Bytes(tag as u64, data));
            pos = end;
        } else {
            return None;
        }
        assert(fields_view(out@) =~= fields_view(before).push(out@.last()@));
        assert(forall|x: Seq<WireField>| fields_view(before) + (seq![out@.last()@] + x) =~= fields_view(out@) + x);
    }
    assert(b@.subrange(pos as int, b@.len() as int) =~= Seq::<u8>::empty());
    assert(fields_view(out@) + Seq::<WireField>::empty() =~= fields_view(out@));
    Some(out)
}

/// The bytes of a packed list of varints.
pub open spec fn varints_bytes(vs: Seq<u64>) -> Seq<u8>
    decreases vs.len(),
{
    if vs.len() == 0 {
        Seq::empty()
    } else {
        varint(vs[0]) + varints_bytes(vs.drop_first())
    }
}

/// The varints of a packed list, or `None` where the bytes are not one.
pub open spec fn parse_varints(s: Seq<u8>) -> Option<Seq<u64>>
    decreases s.len(),
{
    if s.len() == 0 {
        Some(Seq::empty())
    } else {
        match varint_prefix(s) {
            Some((v, rem)) => {
                if rem >= s.len() {
                    None
                } else {
                    match parse_varints(s.subrange(s.len() - rem, s.len() as int)) {
                        Some(vs) => Some(seq![v] + vs),
                        None => None,
                    }
                }
            },
            None => None,
        }
    }
}

/// A packed list of varints reads back as the list.
pub proof fn lemma_varints_round_trip(vs: Seq<u64>)
    ensures
        parse_varints(varints_bytes(vs)) == Some(vs),
    decreases vs.len(),
{
    if vs.len() > 0 {
        let tail = varints_bytes(vs.drop_first());
        let s = varints_bytes(vs);
        lemma_varint_prefix(vs[0], tail);
        assert(varint(vs[0]).len() > 0) by {
            reveal_with_fuel(varint, 2);
        }
        assert(s.subrange(s.len() - tail.len(), s.len() as int) =~= tail);
        lemma_varints_round_trip(vs.drop_first());
        assert(seq![vs[0]] + vs.drop_first() =~= vs);
    }
}

proof fn lemma_varints_bytes_push(vs: Seq<u64>, v: u64)
    ensures
        varints_bytes(vs.push(v)) == varints_bytes(vs) + varint(v),
    decreases vs.len(),
{
    if vs.len() == 0 {
        assert(vs.push(v).drop_first() =~= Seq::<u64>::empty());
        assert(varints_bytes(vs.push(v)) =~= varint(v) + varints_bytes(Seq::<u64>::empty()));
        assert(varints_bytes(vs.push(v)) =~= varint(v));
    } else {
        assert(vs.push(v).drop_first() =~= vs.drop_first().push(v));
        lemma_varints_bytes_push(vs.drop_first(), v);
        assert(varints_bytes(vs.push(v)) =~= varints_bytes(vs) + varint(v));
    }
}

/// The bytes of a packed list of varints.
pub fn encode_varints(vs: &Vec<u64>) -> (r: Vec<u8>)
    ensures
        r@ == varints_bytes(vs@),
{
    let mut out: Vec<u8> = Vec::new();
    let mut i: usize = 0;
    while i < vs.len()
        invariant
            i <= vs@.len(),
            out@ == varints_bytes(vs@.subrange(0, i as int)),
        decreases vs@.len() - i,
    {
        put_varint(&mut out, vs[i]);
        proof {
            assert(vs@.subrange(0, i + 1) =~= vs@.subrange(0, i as int).push(vs@[i as int]));
            lemma_varints_bytes_push(vs@.subrange(0, i as int), vs@[i as int]);
        }
        i = i + 1;
    }
    assert(vs@.subrange(0, i as int) =~= vs@);
    out
}

/// The varints of a packed list, or `None` where the bytes are not one.
pub fn decode_varints(b: &[u8]) -> (r: Option<Vec<u64>>)
    ensures
        match r {
            Some(vs) => parse_varints(b@) == Some(vs@),
            None => parse_varints(b@) is None,
        },
{
    let mut out: Vec<u64> = Vec::new();
    let mut pos: usize = 0;
    assert(b@.subrange(0, b@.len() as int) =~= b@);
    assert(forall|x: Seq<u64>| out@ + x =~= x);
    while pos < b.len()
        invariant
            pos <= b@.len(),
            parse_varints(b@) == match parse_varints(b@.subrange(pos as int, b@.len() as int)) {
                Some(vs) => Some(out@ + vs),
                None => None::<Seq<u64>>,
            },
        decreases b@.len() - pos,
    {
        let ghost s = b@.subrange(pos as int, b@.len() as int);
        let (v, rem) = match get_varint(b, pos) {
            Some(x) => x,
            None => return None,
        };
        if rem >= b.len() - pos {
            return None;
        }
        let next = b.len() - rem;
        assert(s.subrange(s.len() - rem, s.len() as int) =~= b@.subrange(next as int, b@.len() as int));
        let ghost before = out@;
        out.push(v);
        pos = next;
        assert(forall|x: Seq<u64>| before + (seq![v] + x) =~= out@ + x);
    }
    assert(b@.subrange(pos as int, b@.len() as int) =~= Seq::<u8>::empty());
    assert(out@ + Seq::<u64>::empty() =~= out@);
    Some(out)
}

/// The value of a singular varint field: the last occurrence wins, 0 where
/// it is absent, and `None` where it occurs as a length-delimited field.
pub open spec fn scalar_field(fs: Seq<WireField>, tag: u64) -> Option<u64>
    decreases fs.len(),
{
    if fs.len() == 0 {
        Some(0)
    } else {
        let prev = scalar_field(fs.drop_last(), tag);
        match fs.last() {
            WireField::Varint(t, v) => if t == tag {
                if prev is Some {
                    Some(v)
                } else {
                    None
                }
            } else {
                prev
            },
            WireField::Bytes(t, _) => if t == tag {
                None
            } else {
                prev
            },
        }
    }
}

/// The values of a repeated varint field, packed or not, in order; `None`
/// where a packed occurrence is not a list of varints.
pub open spec fn repeated_field(fs: Seq<WireField>, tag: u64) -> Option<Seq<u64>>
    decreases fs.len(),
{
    if fs.len() == 0 {
        Some(Seq::empty())
    } else {
        let prev = repeated_field(fs.drop_last(), tag);
        match fs.last() {
            WireField::Varint(t, v) => if t == tag {
                match prev {
                    Some(p) => Some(p.push(v)),
                    None => None,
                }
            } else {
                prev
            },
            WireField::Bytes(t, b) => if t == tag {
                match (prev, parse_varints(b)) {
                    (Some(p), Some(vs)) => Some(p + vs),
                    _ => None,
                }
            } else {
                prev
            },
        }
    }
}

/// The value of a singular varint field of a message.
pub fn get_scalar_field(fs: &Vec<Field>, tag: u64) -> (r: Option<u64>)
    ensures
        r == scalar_field(fields_view(fs@), tag),
{
    let mut ok = true;
    let mut val: u64 = 0;
    let mut i: usize = 0;
    assert(fields_view(fs@.subrange(0, 0)) =~= Seq::<WireField>::empty());
    while i < fs.len()
        invariant
            i <= fs@.len(),
            scalar_field(fields_view(fs@.subrange(0, i as int)), tag) == if ok {
                Some(val)
            } else {
                None
            },
        decreases fs@.len() - i,
    {
        let ghost pre = fields_view(fs@.subrange(0, i as int));
        let ghost cur = fields_view(fs@.subrange(0, i + 1));
        assert(cur.drop_last() =~= pre);
        assert(cur.last() == fs@[i as int]@);
        match &fs[i] {
            Field::Varint(t, v) => {
                if *t == tag && ok {
                    val = *v;
                }
            },
            Field::Bytes(t, _) => {
                if *t == tag {
                    ok = false;
                }
            },
        }
        i = i + 1;
    }
    assert(fs@.subrange(0, i as int) =~= fs@);
    if ok {
        Some(val)
    } else {
        None
    }
}

/// The values of a repeated varint field of a message, packed or not.
pub fn get_repeated_field(fs: &Vec<Field>, tag: u64) -> (r: Option<Vec<u64>>)
    ensures
        match r {
            Some(vs) => repeated_field(fields_view(fs@), tag) == Some(vs@),
            None => repeated_field(fields_view(fs@), tag) is None,
        },
{
    let mut ok = true;
    let mut acc: Vec<u64> = Vec::new();
    let mut i: usize = 0;
    assert(fields_view(fs@.subrange(0, 0)) =~= Seq::<WireField>::empty());
    while i < fs.len()
        invariant
            i <= fs@.len(),
            repeated_field(fields_view(fs@.subrange(0, i as int)), tag) == if ok {
                Some(acc@)
            } else {
                None
            },
        decreases fs@.len() - i,
    {
        let ghost pre = fields_view(fs@.subrange(0, i as int));
        let ghost cur = fields_view(fs@.subrange(0, i + 1));
        assert(cur.drop_last() =~= pre);
        assert(cur.last() == fs@[i as int]@);
        match &fs[i] {
            Field::Varint(t, v) => {
                if *t == tag && ok {
                    acc.push(*v);
                }
            },
            Field::Bytes(t, b) => {
                if *t == tag && ok {
                    match decode_varints(b.as_slice()) {
                        Some(vs) => {
                            let ghost before = acc@;
                            let mut j: usize = 0;
                            while j < vs.len()
                                invariant
                                    j <= vs@.len(),
                                    acc@ == before + vs@.subrange(0, j as int),
                                decreases vs@.len() - j,
                            {
                                acc.push(vs[j]);
                                j = j + 1;
                                assert(acc@ =~= before + vs@.subrange(0, j as int));
                            }
                            assert(vs@.subrange(0, j as int) =~= vs@);
                        },
                        None => {
                            ok = false;
                        },
                    }
                }
            },
        }
        i = i + 1;
    }
    assert(fs@.subrange(0, i as int) =~= fs@);
    if ok {
        Some(acc)
    } else {
        None
    }
}

/// The value of a singular length-delimited field: the last occurrence wins,
/// empty where it is absent, and `None` where it occurs as a varint.
pub open spec fn bytes_field(fs: Seq<WireField>, tag: u64) -> Option<Seq<u8>>
    decreases fs.len(),
{
    if fs.len() == 0 {
        Some(Seq::empty())
    } else {
        let prev = bytes_field(fs.drop_last(), tag);
        match fs.last() {
            WireField::Bytes(t, b) => if t == tag {
                if prev is Some {
                    Some(b)
                } else {
                    None
                }
            } else {
                prev
            },
            WireField::Varint(t, _) => if t == tag {
                None
            } else {
                prev
            },
        }
    }
}

/// The values of a repeated length-delimited field, in order; `None` where it
/// occurs as a varint.
pub open spec fn repeated_bytes_field(fs: Seq<WireField>, tag: u64) -> Option<Seq<Seq<u8>>>
    decreases fs.len(),
{
    if fs.len() == 0 {
        Some(Seq::empty())
    } else {
        let prev = repeated_bytes_field(fs.drop_last(), tag);
        match fs.last() {
            WireField::Bytes(t, b) => if t == tag {
                match prev {
                    Some(p) => Some(p.push(b)),
                    None => None,
                }
            } else {
                prev
            },
            WireField::Varint(t, _) => if t == tag {
                None
            } else {
                prev
            },
        }
    }
}

/// The number of a field.
pub open spec fn field_tag(f: WireField) -> u64 {
    match f {
        WireField::Varint(t, _) => t,
        WireField::Bytes(t, _) => t,
    }
}

/// No field of the list has the number.
pub open spec fn lacks_tag(fs: Seq<WireField>, tag: u64) -> bool {
    forall|i: int| 0 <= i < fs.len() ==> field_tag(#[trigger] fs[i]) != tag
}

/// Fields of other numbers, wherever they stand, leave a field's value as it is.
pub proof fn lemma_fields_other_tags(a: Seq<WireField>, b: Seq<WireField>, tag: u64)
    ensures
        lacks_tag(b, tag) ==> scalar_field(a + b, tag) == scalar_field(a, tag) && bytes_field(a + b, tag)
            == bytes_field(a, tag),
        lacks_tag(a, tag) ==> scalar_field(a + b, tag) == scalar_field(b, tag) && bytes_field(a + b, tag)
            == bytes_field(b, tag),
    decreases b.len(),
{
    if b.len() == 0 {
        assert(a + b =~= a);
        if lacks_tag(a, tag) {
            lemma_lacks_tag_default(a, tag);
        }
    } else {
        assert((a + b).drop_last() =~= a + b.drop_last());
        assert((a + b).last() == b.last());
        lemma_fields_other_tags(a, b.drop_last(), tag);
        if lacks_tag(b, tag) {
            assert(lacks_tag(b.drop_last(), tag)) by {
                assert forall|i: int| 0 <= i < b.drop_last().len() implies field_tag(#[trigger] b.drop_last()[i]) != tag by {
                    assert(b.drop_last()[i] == b[i]);
                }
            }
            assert(field_tag(b[b.len() - 1]) != tag);
        }
    }
}

proof fn lemma_lacks_tag_default(a: Seq<WireField>, tag: u64)
    requires
        lacks_tag(a, tag),
    ensures
        scalar_field(a, tag) == Some(0u64),
        bytes_field(a, tag) == Some(Seq::<u8>::empty()),
        repeated_bytes_field(a, tag) == Some(Seq::<Seq<u8>>::empty()),
    decreases a.len(),
{
    if a.len() > 0 {
        assert(lacks_tag(a.drop_last(), tag)) by {
            assert forall|i: int| 0 <= i < a.drop_last().len() implies field_tag(#[trigger] a.drop_last()[i]) != tag by {
                assert(a.drop_last()[i] == a[i]);
            }
        }
        lemma_lacks_tag_default(a.drop_last(), tag);
        assert(field_tag(a[a.len() - 1]) != tag);
    }
}

/// Every field of the list has a number between `lo` and `hi`.
pub open spec fn tags_within(fs: Seq<WireField>, lo: u64, hi: u64) -> bool {
    forall|i: int| 0 <= i < fs.len() ==> lo <= #[trigger] field_tag(fs[i]) <= hi
}

/// The fields of a list of pieces, in order.
pub open spec fn concat_pieces(ps: Seq<Seq<WireField>>) -> Seq<WireField>
    decreases ps.len(),
{
    if ps.len() == 0 {
        Seq::empty()
    } else {
        concat_pieces(ps.drop_last()) + ps.last()
    }
}

/// Piece `i` holds only fields numbered `i + 1`.
pub open spec fn numbered_pieces(ps: Seq<Seq<WireField>>) -> bool {
    forall|i: int| 0 <= i < ps.len() ==> tags_within(#[trigger] ps[i], (i + 1) as u64, (i + 1) as u64)
}

/// The fields of numbered pieces are numbered from 1 to the number of pieces.
pub proof fn lemma_concat_pieces_tags(ps: Seq<Seq<WireField>>)
    requires
        numbered_pieces(ps),
        ps.len() < 0x1000,
    ensures
        tags_within(concat_pieces(ps), 1, ps.len() as u64),
    decreases ps.len(),
{
    if ps.len() > 0 {
        let init = ps.drop_last();
        assert(numbered_pieces(init)) by {
            assert forall|i: int| 0 <= i < init.len() implies tags_within(#[trigger] init[i], (i + 1) as u64, (i + 1) as u64) by {
                assert(init[i] == ps[i]);
            }
        }
        lemma_concat_pieces_tags(init);
        let c = concat_pieces(init) + ps.last();
        assert(tags_within(ps[ps.len() - 1], ps.len() as u64, ps.len() as u64));
        assert forall|i: int| 0 <= i < c.len() implies 1 <= #[trigger] field_tag(c[i]) <= ps.len() as u64 by {
            if i < concat_pieces(init).len() {
                assert(c[i] == concat_pieces(init)[i]);
            } else {
                assert(c[i] == ps.last()[i - concat_pieces(init).len()]);
            }
        }
    }
}

/// Adding a piece adds its fields at the end.
pub proof fn lemma_concat_pieces_push(ps: Seq<Seq<WireField>>, x: Seq<WireField>)
    ensures
        concat_pieces(ps.push(x)) == concat_pieces(ps) + x,
{
    assert(ps.push(x).drop_last() =~= ps);
}

/// The bytes of a length-delimited field are no longer than the message.
pub proof fn lemma_field_payload_len(fs: Seq<WireField>, i: int)
    requires
        0 <= i < fs.len(),
    ensures
        fs[i] matches WireField::Bytes(_, b) ==> b.len() <= fields_bytes(fs).len(),
    decreases fs.len(),
{
    if i > 0 {
        lemma_field_payload_len(fs.drop_first(), i - 1);
        assert(fs.drop_first()[i - 1] == fs[i]);
    }
}

/// In a message made of numbered pieces, a field's value is the one its own
/// piece gives.
pub proof fn lemma_lookup_piece(ps: Seq<Seq<WireField>>, k: int)
    requires
        numbered_pieces(ps),
        ps.len() < 0x1000,
        0 <= k < ps.len(),
    ensures
        scalar_field(concat_pieces(ps), (k + 1) as u64) == scalar_field(ps[k], (k + 1) as u64),
        bytes_field(concat_pieces(ps), (k + 1) as u64) == bytes_field(ps[k], (k + 1) as u64),
    decreases ps.len(),
{
    let init = ps.drop_last();
    let tag = (k + 1) as u64;
    assert(numbered_pieces(init)) by {
        assert forall|i: int| 0 <= i < init.len() implies tags_within(#[trigger] init[i], (i + 1) as u64, (i + 1) as u64) by {
            assert(init[i] == ps[i]);
        }
    }
    if k == ps.len() - 1 {
        lemma_concat_pieces_tags(init);
        assert(lacks_tag(concat_pieces(init), tag));
        lemma_fields_other_tags(concat_pieces(init), ps.last(), tag);
    } else {
        assert(tags_within(ps[ps.len() - 1], ps.len() as u64, ps.len() as u64));
        assert(lacks_tag(ps.last(), tag));
        lemma_fields_other_tags(concat_pieces(init), ps.last(), tag);
        lemma_lookup_piece(init, k);
        assert(init[k] == ps[k]);
    }
}

/// A repeated length-delimited field made of the given values reads back as them.
pub proof fn lemma_repeated_bytes(ms: Seq<Seq<u8>>, tag: u64)
    ensures
        repeated_bytes_field(ms.map_values(|m: Seq<u8>| WireField::Bytes(tag, m)), tag) == Some(ms),
    decreases ms.len(),
{
    let fs = ms.map_values(|m: Seq<u8>| WireField::Bytes(tag, m));
    if ms.len() > 0 {
        assert(fs.drop_last() =~= ms.drop_last().map_values(|m: Seq<u8>| WireField::Bytes(tag, m)));
        lemma_repeated_bytes(ms.drop_last(), tag);
        assert(ms.drop_last().push(ms.last()) =~= ms);
    } else {
        assert(ms =~= Seq::<Seq<u8>>::empty());
    }
}

/// The value of a singular length-delimited field of a message.
pub fn get_bytes_field(fs: &Vec<Field>, tag: u64) -> (r: Option<Vec<u8>>)
    ensures
        match r {
            Some(b) => bytes_field(fields_view(fs@), tag) == Some(b@),
            None => bytes_field(fields_view(fs@), tag) is None,
        },
{
    let mut ok = true;
    let mut val: Vec<u8> = Vec::new();
    let mut i: usize = 0;
    assert(fields_view(fs@.subrange(0, 0)) =~= Seq::<WireField>::empty());
    while i < fs.len()
        invariant
            i <= fs@.len(),
            bytes_field(fields_view(fs@.subrange(0, i as int)), tag) == if ok {
                Some(val@)
            } else {
                None
            },
        decreases fs@.len() - i,
    {
        let ghost pre = fields_view(fs@.subrange(0, i as int));
        let ghost cur = fields_view(fs@.subrange(0, i + 1));
        assert(cur.drop_last() =~= pre);
        assert(cur.last() == fs@[i as int]@);
        match &fs[i] {
            Field::Bytes(t, b) => {
                if *t == tag && ok {
                    val = b.clone();
                }
            },
            Field::Varint(t, _) => {
                if *t == tag {
                    ok = false;
                }
            },
        }
        i = i + 1;
    }
    assert(fs@.subrange(0, i as int) =~= fs@);
    if ok {
        Some(val)
    } else {
        None
    }
}

/// The views of a list of byte strings.
pub open spec fn bytes_views(v: Seq<Vec<u8>>) -> Seq<Seq<u8>> {
    v.map_values(|b: Vec<u8>| b@)
}

/// The values of a repeated length-delimited field of a message.
pub fn get_repeated_bytes_field(fs: &Vec<Field>, tag: u64) -> (r: Option<Vec<Vec<u8>>>)
    ensures
        match r {
            Some(vs) => repeated_bytes_field(fields_view(fs@), tag) == Some(bytes_views(vs@)),
            None => repeated_bytes_field(fields_view(fs@), tag) is None,
        },
{
    let mut ok = true;
    let mut acc: Vec<Vec<u8>> = Vec::new();
    let mut i: usize = 0;
    assert(fields_view(fs@.subrange(0, 0)) =~= Seq::<WireField>::empty());
    assert(bytes_views(acc@) =~= Seq::<Seq<u8>>::empty());
    while i < fs.len()
        invariant
            i <= fs@.len(),
            repeated_bytes_field(fields_view(fs@.subrange(0, i as int)), tag) == if ok {
                Some(bytes_views(acc@))
            } else {
                None
            },
        decreases fs@.len() - i,
    {
        let ghost pre = fields_view(fs@.subrange(0, i as int));
        let ghost cur = fields_view(fs@.subrange(0, i + 1));
        assert(cur.drop_last() =~= pre);
        assert(cur.last() == fs@[i as int]@);
        let ghost before = acc@;
        match &fs[i] {
            Field::Bytes(t, b) => {
                if *t == tag && ok {
                    acc.push(b.clone());
                    assert(bytes_views(acc@) =~= bytes_views(before).push(b@));
                }
            },
            Field::Varint(t, _) => {
                if *t == tag {
                    ok = false;
                }
            },
        }
        i = i + 1;
    }
    assert(fs@.subrange(0, i as int) =~= fs@);
    if ok {
        Some(acc)
    } else {
        None
    }
}

} // verus!
