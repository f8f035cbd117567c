//! Values as the store receives them. A plain value is sent as it is
//! written: a number as its decimal numeral, a text or a run of bytes as its
//! bytes. A structured value is packed in MessagePack, and the argument is
//! marked as packed.

use crate::text::decimal;
use vstd::prelude::*;
use vstd::slice::slice_to_vec;
use vstd::utf8::encode_utf8;

verus! {

/// A value of the host that a script can take as an argument.
#[derive(Debug)]
pub enum Value {
    /// No value: the unit, or an absent optional value.
    Unit,
    /// A struct without fields.
    UnitStruct,
    Bool(bool),
    /// A signed integer of any width.
    Int(i64),
    /// One byte. A list of nothing but bytes is sent as a byte string.
    Byte(u8),
    /// An unsigned integer wider than a byte.
    UInt(u64),
    /// A text or a single character.
    Str(String),
    Bytes(Vec<u8>),
    /// A variant without fields: its number among the variants and its name.
    Variant { index: u32, name: String },
    /// A sequence, a tuple or the fields of a tuple struct.
    List(Vec<Value>),
    /// A map, or the fields of a struct under their names.
    Table(Vec<(Value, Value)>),
    /// A value that the caller has encoded, such as a floating-point
    /// number: `arg` is what is sent where the value is an argument of its
    /// own, `packed` what is written where it is part of a structured value.
    Encoded { arg: Vec<u8>, packed: Vec<u8> },
}

/// `v` in `n` bytes, the most significant first.
pub open spec fn be_bytes(v: nat, n: nat) -> Seq<u8>
    decreases n,
{
    if n == 0 {
        seq![]
    } else {
        be_bytes(v / 256, (n - 1) as nat).push((v % 256) as u8)
    }
}

/// The low 32 bits of `n`.
pub open spec fn low32(n: nat) -> u32 {
    (n % 0x1_0000_0000) as u32
}

/// MessagePack's nil.
pub open spec fn nil_bytes() -> Seq<u8> {
    seq![0xc0u8]
}

/// MessagePack's encoding of a boolean.
pub open spec fn bool_bytes(v: bool) -> Seq<u8> {
    if v {
        seq![0xc3u8]
    } else {
        seq![0xc2u8]
    }
}

/// MessagePack's shortest encoding of an unsigned integer.
pub open spec fn uint_bytes(v: u64) -> Seq<u8> {
    if v < 128 {
        seq![v as u8]
    } else if v < 256 {
        seq![0xccu8, v as u8]
    } else if v < 65536 {
        seq![0xcdu8] + be_bytes(v as nat, 2)
    } else if v < 4294967296 {
        seq![0xceu8] + be_bytes(v as nat, 4)
    } else {
        seq![0xcfu8] + be_bytes(v as nat, 8)
    }
}

/// MessagePack's shortest encoding of a signed integer: a negative number
/// in two's complement, any other as an unsigned integer.
pub open spec fn sint_bytes(v: i64) -> Seq<u8> {
    if -32 <= v < 0 {
        seq![(256 + v) as u8]
    } else if -128 <= v < -32 {
        seq![0xd0u8, (256 + v) as u8]
    } else if -32768 <= v < -128 {
        seq![0xd1u8] + be_bytes((65536 + v) as nat, 2)
    } else if -2147483648 <= v < -32768 {
        seq![0xd2u8] + be_bytes((4294967296 + v) as nat, 4)
    } else if v < -2147483648 {
        seq![0xd3u8] + be_bytes((18446744073709551616 + v) as nat, 8)
    } else {
        uint_bytes(v as u64)
    }
}

/// MessagePack's header of a string of `len` bytes.
pub open spec fn str_header(len: u32) -> Seq<u8> {
    if len < 32 {
        seq![(0xa0 + len) as u8]
    } else if len < 256 {
        seq![0xd9u8, len as u8]
    } else if len < 65536 {
        seq![0xdau8] + be_bytes(len as nat, 2)
    } else {
        seq![0xdbu8] + be_bytes(len as nat, 4)
    }
}

/// MessagePack's header of an array of `len` values.
pub open spec fn array_header(len: u32) -> Seq<u8> {
    if len < 16 {
        seq![(0x90 + len) as u8]
    } else if len < 65536 {
        seq![0xdcu8] + be_bytes(len as nat, 2)
    } else {
        seq![0xddu8] + be_bytes(len as nat, 4)
    }
}

/// MessagePack's header of a map of `len` pairs.
pub open spec fn map_header(len: u32) -> Seq<u8> {
    if len < 16 {
        seq![(0x80 + len) as u8]
    } else if len < 65536 {
        seq![0xdeu8] + be_bytes(len as nat, 2)
    } else {
        seq![0xdfu8] + be_bytes(len as nat, 4)
    }
}

/// The decimal numeral of `n` in ASCII.
pub open spec fn numeral_bytes(n: nat) -> Seq<u8> {
    encode_utf8(decimal(n))
}

/// The decimal numeral of `v` in ASCII, with a minus sign where `v` is
/// negative.
pub open spec fn decimal_bytes(v: int) -> Seq<u8> {
    if v < 0 {
        seq![0x2du8] + numeral_bytes((-v) as nat)
    } else {
        numeral_bytes(v as nat)
    }
}

/// The argument that a boolean is sent as: `1` or `0`.
pub open spec fn bool_arg(v: bool) -> Seq<u8> {
    if v {
        seq![0x31u8]
    } else {
        seq![0x30u8]
    }
}

/// Writes nil with `rmp::encode::write_nil`: the single byte `0xc0`.
#[verifier::external_body]
fn rmp_nil(out: &mut Vec<u8>)
    ensures
        final(out)@ == old(out)@ + nil_bytes(),
{
    let _ = rmp::encode::write_nil(out);
}

/// Writes a boolean with `rmp::encode::write_bool`: `0xc3` for true, `0xc2`
/// for false.
#[verifier::external_body]
fn rmp_bool(out: &mut Vec<u8>, v: bool)
    ensures
        final(out)@ == old(out)@ + bool_bytes(v),
{
    let _ = rmp::encode::write_bool(out, v);
}

/// Writes a signed integer with `rmp::encode::write_sint`, which picks the
/// shortest signed form for a negative number and the shortest unsigned
/// form for any other, a marker byte first, then the number in big endian.
#[verifier::external_body]
fn rmp_sint(out: &mut Vec<u8>, v: i64)
    ensures
        final(out)@ == old(out)@ + sint_bytes(v),
{
    let _ = rmp::encode::write_sint(out, v);
}

/// Writes an unsigned integer with `rmp::encode::write_uint`, which picks
/// the shortest form, a marker byte first, then the number in big endian.
#[verifier::external_body]
fn rmp_uint(out: &mut Vec<u8>, v: u64)
    ensures
        final(out)@ == old(out)@ + uint_bytes(v),
{
    let _ = rmp::encode::write_uint(out, v);
}

/// Writes the header of a string with `rmp::encode::write_str_len`: the
/// length within the marker below 32, else a marker and the length in one,
/// two or four bytes.
#[verifier::external_body]
fn rmp_str_len(out: &mut Vec<u8>, len: u32)
    ensures
        final(out)@ == old(out)@ + str_header(len),
{
    let _ = rmp::encode::write_str_len(out, len);
}

/// Writes the header of an array with `rmp::encode::write_array_len`: the
/// length within the marker below 16, else a marker and the length in two
/// or four bytes.
#[verifier::external_body]
fn rmp_array_len(out: &mut Vec<u8>, len: u32)
    ensures
        final(out)@ == old(out)@ + array_header(len),
{
    let _ = rmp::encode::write_array_len(out, len);
}

/// Writes the header of a map with `rmp::encode::write_map_len`: the
/// length within the marker below 16, else a marker and the length in two
/// or four bytes.
#[verifier::external_body]
fn rmp_map_len(out: &mut Vec<u8>, len: u32)
    ensures
        final(out)@ == old(out)@ + map_header(len),
{
    let _ = rmp::encode::write_map_len(out, len);
}

/// The argument that `redis::ToRedisArgs` writes for a boolean: `1` or `0`.
#[verifier::external_body]
fn redis_bool(v: bool) -> (out: Vec<u8>)
    ensures
        out@ == bool_arg(v),
{
    redis::ToRedisArgs::to_redis_args(&v).concat()
}

/// The argument that `redis::ToRedisArgs` writes for a signed integer: its
/// decimal numeral.
#[verifier::external_body]
fn redis_int(v: i64) -> (out: Vec<u8>)
    ensures
        out@ == decimal_bytes(v as int),
{
    redis::ToRedisArgs::to_redis_args(&v).concat()
}

/// The argument that `redis::ToRedisArgs` writes for an unsigned integer:
/// its decimal numeral.
#[verifier::external_body]
fn redis_uint(v: u64) -> (out: Vec<u8>)
    ensures
        out@ == decimal_bytes(v as int),
{
    redis::ToRedisArgs::to_redis_args(&v).concat()
}

/// The byte that a value is, where it is a single byte.
pub open spec fn single_byte(v: Value) -> Option<u8> {
    match v {
        Value::Byte(b) => Some(b),
        _ => None,
    }
}

/// Whether every one of `items` is a single byte.
pub open spec fn all_bytes(items: Seq<Value>) -> bool {
    forall|i: int| 0 <= i < items.len() ==> single_byte(#[trigger] items[i]) is Some
}

/// The bytes that `items` are, where every one of them is a single byte.
pub open spec fn byte_values(items: Seq<Value>) -> Seq<u8> {
    Seq::new(items.len(), |i: int| single_byte(items[i]).unwrap())
}

/// Whether a list is sent as a byte string: it is not empty and holds
/// nothing but bytes.
pub open spec fn is_byte_string(items: Seq<Value>) -> bool {
    items.len() > 0 && all_bytes(items)
}

/// The MessagePack encoding of a binary-safe string.
pub open spec fn packed_str(bytes: Seq<u8>) -> Seq<u8> {
    str_header(low32(bytes.len())) + bytes
}

/// The MessagePack encoding of a value inside a structured value.
pub open spec fn packed(v: Value) -> Seq<u8>
    decreases v, 0nat,
{
    match v {
        Value::Unit => nil_bytes(),
        Value::UnitStruct => array_header(0),
        Value::Bool(b) => bool_bytes(b),
        Value::Int(i) => sint_bytes(i),
        Value::Byte(b) => uint_bytes(b as u64),
        Value::UInt(u) => uint_bytes(u),
        Value::Str(s) => packed_str(encode_utf8(s@)),
        Value::Bytes(b) => packed_str(b@),
        Value::Variant { index, name } => uint_bytes(index as u64),
        Value::List(items) => if is_byte_string(items@) {
            packed_str(byte_values(items@))
        } else {
            array_header(low32(items@.len())) + packed_items(items@, items@.len())
        },
        Value::Table(entries) => map_header(low32(2 * entries@.len()) / 2) + packed_entries(
            entries@,
            entries@.len(),
        ),
        Value::Encoded { arg, packed } => packed@,
    }
}

/// The MessagePack encodings of the first `n` of `items`, one behind the
/// other.
pub open spec fn packed_items(items: Seq<Value>, n: nat) -> Seq<u8>
    decreases items, n,
{
    if n == 0 || n > items.len() {
        seq![]
    } else {
        packed_items(items, (n - 1) as nat) + packed(items[n - 1])
    }
}

/// The MessagePack encodings of the first `n` of `entries`, each key
/// before its value.
pub open spec fn packed_entries(entries: Seq<(Value, Value)>, n: nat) -> Seq<u8>
    decreases entries, n,
{
    if n == 0 || n > entries.len() {
        seq![]
    } else {
        packed_entries(entries, (n - 1) as nat) + packed(entries[n - 1].0) + packed(
            entries[n - 1].1,
        )
    }
}

/// What a value is sent as where it is an argument of its own.
pub open spec fn arg_bytes(v: Value) -> Seq<u8> {
    match v {
        Value::Unit => seq![],
        Value::UnitStruct => seq![],
        Value::Bool(b) => bool_arg(b),
        Value::Int(i) => decimal_bytes(i as int),
        Value::Byte(b) => decimal_bytes(b as int),
        Value::UInt(u) => decimal_bytes(u as int),
        Value::Str(s) => encode_utf8(s@),
        Value::Bytes(b) => b@,
        Value::Variant { index, name } => encode_utf8(name@),
        Value::List(items) => if is_byte_string(items@) {
            byte_values(items@)
        } else {
            packed(v)
        },
        Value::Table(entries) => packed(v),
        Value::Encoded { arg, packed } => arg@,
    }
}

/// Whether a value is packed where it is an argument of its own: a table
/// is, and a list unless it is sent as a byte string.
pub open spec fn arg_packed(v: Value) -> bool {
    match v {
        Value::List(items) => !is_byte_string(items@),
        Value::Table(entries) => true,
        _ => false,
    }
}

/// One argument of a script, as it is sent.
#[derive(Debug)]
pub struct ScriptArg {
    buf: Vec<u8>,
    pack: bool,
}

/// What an argument is, as a value.
pub struct ScriptArgView {
    pub bytes: Seq<u8>,
    pub pack: bool,
}

impl View for ScriptArg {
    type V = ScriptArgView;

    closed spec fn view(&self) -> ScriptArgView {
        ScriptArgView { bytes: self.buf@, pack: self.pack }
    }
}

impl Clone for ScriptArg {
    fn clone(&self) -> (r: Self)
        ensures
            r@ == self@,
    {
        ScriptArg { buf: self.buf.clone(), pack: self.pack }
    }
}

impl ScriptArg {
    fn new() -> (r: Self)
        ensures
            r@ == (ScriptArgView { bytes: seq![], pack: false }),
    {
        Self { buf: Vec::with_capacity(128), pack: false }
    }

    /// Whether the argument is packed in MessagePack.
    pub fn pack(&self) -> (r: bool)
        ensures
            r == self@.pack,
    {
        self.pack
    }

    /// The bytes that are sent.
    pub fn bytes(&self) -> (r: &[u8])
        ensures
            r@ == self@.bytes,
    {
        self.buf.as_slice()
    }

    fn write_arg(&mut self, arg: &[u8])
        ensures
            final(self)@ == (ScriptArgView { bytes: old(self)@.bytes + arg@, ..old(self)@ }),
    {
        self.buf.extend_from_slice(arg);
        assert(self.buf@ =~= old(self).buf@ + arg@);
    }

    fn mark_packed(&mut self)
        ensures
            final(self)@ == (ScriptArgView { pack: true, ..old(self)@ }),
    {
        self.pack = true;
    }
}

/// What a list has been so far: the bytes that its values were, while
/// every one of them was a single byte.
struct ByteSeq {
    bytearray: Vec<u8>,
    is_bytearray: bool,
}

impl ByteSeq {
    fn new() -> (r: Self)
        ensures
            r.bytearray@ == Seq::<u8>::empty(),
            r.is_bytearray,
    {
        Self { bytearray: Vec::new(), is_bytearray: true }
    }

    fn add_byte(&mut self, byte: Option<u8>)
        ensures
            final(self).is_bytearray == (old(self).is_bytearray && byte is Some),
            final(self).bytearray@ == match byte {
                Some(b) => old(self).bytearray@.push(b),
                None => old(self).bytearray@,
            },
    {
        self.is_bytearray = self.is_bytearray && byte.is_some();
        if let Some(b) = byte {
            self.bytearray.push(b);
        }
    }

    fn bytearray(&self) -> (r: Option<&[u8]>)
        ensures
            match r {
                Some(b) => self.is_bytearray && b@ == self.bytearray@,
                None => !self.is_bytearray,
            },
    {
        if self.is_bytearray {
            Some(self.bytearray.as_slice())
        } else {
            None
        }
    }
}

/// Whether a structured value is a table or a list.
enum Shape {
    Entries,
    Items(ByteSeq),
}

/// A structured value while its parts are added: the packed parts, how
/// many there are, as far as a header holds it, and whether there are any.
struct Compound {
    buf: Vec<u8>,
    len: u32,
    some: bool,
    inner: Shape,
}

/// What a structured value is written as, and whether that is packed.
struct Written {
    bytes: Vec<u8>,
    packed: bool,
}

/// One more than `len`, as far as a header holds it.
pub open spec fn next_len(len: u32) -> u32 {
    if len == u32::MAX {
        0
    } else {
        (len + 1) as u32
    }
}

proof fn lemma_next_len(n: nat)
    ensures
        next_len(low32(n)) == low32(n + 1),
{
}

impl Compound {
    fn new(inner: Shape) -> (r: Self)
        ensures
            r.buf@ == Seq::<u8>::empty(),
            r.len == 0,
            !r.some,
            r.inner == inner,
    {
        Self { buf: Vec::new(), len: 0, some: false, inner }
    }

    /// Adds one part: it is packed behind the parts before it, and a list
    /// takes note of whether it was a single byte.
    fn add(&mut self, value: &Value)
        ensures
            final(self).buf@ == old(self).buf@ + packed(*value),
            final(self).len == next_len(old(self).len),
            final(self).some,
            match (old(self).inner, final(self).inner) {
                (Shape::Entries, Shape::Entries) => true,
                (Shape::Items(before), Shape::Items(after)) => {
                    &&& after.is_bytearray == (before.is_bytearray && single_byte(*value) is Some)
                    &&& after.bytearray@ == match single_byte(*value) {
                        Some(b) => before.bytearray@.push(b),
                        None => before.bytearray@,
                    }
                },
                _ => false,
            },
        decreases value, 1nat,
    {
        self.len = if self.len == u32::MAX {
            0
        } else {
            self.len + 1
        };
        self.some = true;
        let byte = pack_value(&mut self.buf, value);
        match &mut self.inner {
            Shape::Entries => {},
            Shape::Items(seq) => {
                seq.add_byte(byte);
            },
        }
    }

    /// Closes the value. A table is a map header and its parts, and
    /// packed. A list of nothing but bytes, unless it is empty, is those
    /// bytes: as they are where the list is an argument of its own, as a
    /// packed string inside another value. Any other list is an array
    /// header and its parts, and packed.
    fn end(self, is_arg: bool) -> (r: Written)
        ensures
            match self.inner {
                Shape::Entries => r.packed && r.bytes@ == map_header(self.len / 2) + self.buf@,
                Shape::Items(seq) => if seq.is_bytearray && self.some {
                    if is_arg {
                        !r.packed && r.bytes@ == seq.bytearray@
                    } else {
                        r.packed && r.bytes@ == str_header(self.len) + seq.bytearray@
                    }
                } else {
                    r.packed && r.bytes@ == array_header(self.len) + self.buf@
                },
            },
    {
        let mut v: Vec<u8> = Vec::new();
        match &self.inner {
            Shape::Entries => {
                rmp_map_len(&mut v, self.len / 2);
                v.extend_from_slice(self.buf.as_slice());
                assert(v@ =~= map_header(self.len / 2) + self.buf@);
                Written { bytes: v, packed: true }
            },
            Shape::Items(seq) => {
                if let Some(bytearray) = seq.bytearray() {
                    if self.some {
                        if is_arg {
                            return Written { bytes: slice_to_vec(bytearray), packed: false };
                        } else {
                            rmp_str_len(&mut v, self.len);
                            v.extend_from_slice(bytearray);
                            assert(v@ =~= str_header(self.len) + seq.bytearray@);
                            return Written { bytes: v, packed: true };
                        }
                    }
                }
                rmp_array_len(&mut v, self.len);
                v.extend_from_slice(self.buf.as_slice());
                assert(v@ =~= array_header(self.len) + self.buf@);
                Written { bytes: v, packed: true }
            },
        }
    }
}

/// Writes `s` as a binary-safe string: its header, then its bytes.
fn write_str(out: &mut Vec<u8>, s: &[u8])
    ensures
        final(out)@ == old(out)@ + packed_str(s@),
{
    let n: u64 = s.len() as u64;
    rmp_str_len(out, (n % 0x1_0000_0000) as u32);
    out.extend_from_slice(s);
    assert(out@ =~= old(out)@ + packed_str(s@));
}

/// Packs the list `items`, for an argument of its own or for a part.
fn list_written(items: &Vec<Value>, is_arg: bool) -> (r: Written)
    ensures
        r.packed == !(is_arg && is_byte_string(items@)),
        r.bytes@ == if is_byte_string(items@) {
            if is_arg {
                byte_values(items@)
            } else {
                packed_str(byte_values(items@))
            }
        } else {
            array_header(low32(items@.len())) + packed_items(items@, items@.len())
        },
    decreases items, 2nat,
{
    let mut c = Compound::new(Shape::Items(ByteSeq::new()));
    let mut i: usize = 0;
    assert(byte_values(items@.take(0)) =~= Seq::<u8>::empty());
    while i < items.len()
        invariant
            i <= items@.len(),
            c.buf@ == packed_items(items@, i as nat),
            c.len == low32(i as nat),
            c.some == (i > 0),
            match c.inner {
                Shape::Entries => false,
                Shape::Items(seq) => seq.is_bytearray == all_bytes(items@.take(i as int)) && (
                seq.is_bytearray ==> seq.bytearray@ == byte_values(items@.take(i as int))),
            },
        decreases items@.len() - i,
    {
        let ghost before = items@.take(i as int);
        proof {
            lemma_next_len(i as nat);
        }
        c.add(&items[i]);
        i += 1;
        proof {
            let now = items@.take(i as int);
            assert(now.drop_last() =~= before);
            assert(now.last() == items@[i - 1]);
            assert(all_bytes(now) == (all_bytes(before) && single_byte(items@[i - 1]) is Some)) by {
                if all_bytes(now) {
                    assert forall|k: int| 0 <= k < before.len() implies single_byte(
                        #[trigger] before[k],
                    ) is Some by {
                        assert(now[k] == before[k]);
                    }
                    assert(single_byte(now[i - 1]) is Some);
                }
                if all_bytes(before) && single_byte(items@[i - 1]) is Some {
                    assert forall|k: int| 0 <= k < now.len() implies single_byte(
                        #[trigger] now[k],
                    ) is Some by {
                        if k < i - 1 {
                            assert(now[k] == before[k]);
                        }
                    }
                }
            }
            if all_bytes(now) {
                assert(byte_values(now) =~= byte_values(before).push(
                    single_byte(items@[i - 1]).unwrap(),
                ));
            }
        }
    }
    assert(items@.take(i as int) =~= items@);
    c.end(is_arg)
}

/// Packs the table `entries`.
fn table_written(entries: &Vec<(Value, Value)>) -> (r: Written)
    ensures
        r.packed,
        r.bytes@ == map_header(low32(2 * entries@.len()) / 2) + packed_entries(
            entries@,
            entries@.len(),
        ),
    decreases entries, 2nat,
{
    let mut c = Compound::new(Shape::Entries);
    let mut i: usize = 0;
    while i < entries.len()
        invariant
            i <= entries@.len(),
            c.buf@ == packed_entries(entries@, i as nat),
            c.len == low32(2 * (i as nat)),
            c.inner is Entries,
        decreases entries@.len() - i,
    {
        proof {
            lemma_next_len(2 * (i as nat));
            lemma_next_len(2 * (i as nat) + 1);
        }
        c.add(&entries[i].0);
        c.add(&entries[i].1);
        i += 1;
        assert(c.buf@ =~= packed_entries(entries@, i as nat));
    }
    c.end(false)
}

/// Packs `value` behind what `out` holds, and says which byte it was where
/// it was a single byte.
fn pack_value(out: &mut Vec<u8>, value: &Value) -> (byte: Option<u8>)
    ensures
        final(out)@ == old(out)@ + packed(*value),
        byte == single_byte(*value),
    decreases value, 0nat,
{
    match value {
        Value::Unit => {
            rmp_nil(out);
            None
        },
        Value::UnitStruct => {
            rmp_array_len(out, 0);
            None
        },
        Value::Bool(b) => {
            rmp_bool(out, *b);
            None
        },
        Value::Int(i) => {
            rmp_sint(out, *i);
            None
        },
        Value::Byte(b) => {
            rmp_uint(out, *b as u64);
            Some(*b)
        },
        Value::UInt(u) => {
            rmp_uint(out, *u);
            None
        },
        Value::Str(s) => {
            write_str(out, s.as_str().as_bytes());
            None
        },
        Value::Bytes(b) => {
            write_str(out, b.as_slice());
            None
        },
        Value::Variant { index, name } => {
            rmp_uint(out, *index as u64);
            None
        },
        Value::List(items) => {
            let w = list_written(items, false);
            out.extend_from_slice(w.bytes.as_slice());
            None
        },
        Value::Table(entries) => {
            let w = table_written(entries);
            out.extend_from_slice(w.bytes.as_slice());
            None
        },
        Value::Encoded { arg, packed } => {
            out.extend_from_slice(packed.as_slice());
            None
        },
    }
}

/// The argument that `value` is sent as. A plain value is written as it
/// is; a table, and a list unless it holds nothing but bytes and is not
/// empty, is packed, and the argument says so.
pub fn script_arg(value: &Value) -> (arg: ScriptArg)
    ensures
        arg@.bytes == arg_bytes(*value),
        arg@.pack == arg_packed(*value),
{
    let mut arg = ScriptArg::new();
    match value {
        Value::Unit => {},
        Value::UnitStruct => {},
        Value::Bool(b) => {
            arg.write_arg(redis_bool(*b).as_slice());
        },
        Value::Int(i) => {
            arg.write_arg(redis_int(*i).as_slice());
        },
        Value::Byte(b) => {
            arg.write_arg(redis_uint(*b as u64).as_slice());
        },
        Value::UInt(u) => {
            arg.write_arg(redis_uint(*u).as_slice());
        },
        Value::Str(s) => {
            arg.write_arg(s.as_str().as_bytes());
        },
        Value::Bytes(b) => {
            arg.write_arg(b.as_slice());
        },
        Value::Variant { index, name } => {
            arg.write_arg(name.as_str().as_bytes());
        },
        Value::List(items) => {
            let w = list_written(items, true);
            if w.packed {
                arg.mark_packed();
            }
            arg.write_arg(w.bytes.as_slice());
        },
        Value::Table(entries) => {
            let w = table_written(entries);
            arg.mark_packed();
            arg.write_arg(w.bytes.as_slice());
        },
        Value::Encoded { arg: a, packed } => {
            arg.write_arg(a.as_slice());
        },
    }
    assert(arg@.bytes =~= arg_bytes(*value));
    arg
}

} // verus!
