//! Packet values and the field primitives of the protocol: VarInt, unsigned
//! short, string, UUID, boolean and raw bytes.
use vstd::prelude::*;
use vstd::utf8::*;
use vstd::arithmetic::div_mod::lemma_mod_breakdown;

verus! {

/// A failure while reading or writing packet fields.
#[derive(Clone, Copy, Debug, PartialEq, Eq, Structural)]
pub enum ProtocolError {
    /// The data ended before the field was complete.
    EndOfStream,
    /// A VarInt longer than five bytes, or out of range for its target type.
    InvalidVarInt,
    /// A string whose bytes are not valid UTF-8.
    InvalidUtf8,
    /// The transport failed.
    IoError,
}

/// One protocol packet: its id and its payload bytes.
#[derive(Clone, Debug)]
pub struct Packet {
    pub id: u8,
    pub data: Vec<u8>,
}

impl View for Packet {
    type V = (u8, Seq<u8>);

    open spec fn view(&self) -> (u8, Seq<u8>) {
        (self.id, self.data@)
    }
}

impl Packet {
    /// A packet with the given id and payload.
    pub fn new(id: u8, data: Vec<u8>) -> (r: Packet)
        ensures
            r.id == id,
            r.data@ == data@,
    {
        Packet { id, data }
    }

    /// A packet with the given id and no payload.
    pub fn empty(id: u8) -> (r: Packet)
        ensures
            r.id == id,
            r.data@.len() == 0,
    {
        Packet { id, data: Vec::new() }
    }

    /// A copy of this packet.
    pub fn duplicate(&self) -> (r: Packet)
        ensures
            r.id == self.id,
            r.data@ == self.data@,
    {
        Packet { id: self.id, data: copy_bytes(&self.data, 0, self.data.len()) }
    }
}

/// The largest length that a string or byte array prefix may state.
pub const MAX_LENGTH: usize = 0x7fff_ffff;

/// The VarInt encoding of `v`: seven bits per byte, least significant first,
/// the high bit set on every byte but the last.
pub open spec fn varint_spec(v: nat) -> Seq<u8>
    decreases v,
{
    if v < 128 {
        seq![v as u8]
    } else {
        seq![(v % 128 + 128) as u8] + varint_spec(v / 128)
    }
}

/// Reading a VarInt from the front of `s`, taking at most `fuel` bytes: the
/// value and the number of bytes it took.
pub open spec fn varint_parse(s: Seq<u8>, fuel: nat) -> Result<(nat, nat), ProtocolError>
    decreases fuel,
{
    if s.len() == 0 {
        Err(ProtocolError::EndOfStream)
    } else if s[0] < 128 {
        Ok((s[0] as nat, 1nat))
    } else if fuel <= 1 {
        Err(ProtocolError::InvalidVarInt)
    } else {
        match varint_parse(s.drop_first(), (fuel - 1) as nat) {
            Ok((v, n)) => Ok(((s[0] - 128) as nat + 128 * v, n + 1)),
            Err(e) => Err(e),
        }
    }
}

pub open spec fn pow128(n: nat) -> nat
    decreases n,
{
    if n == 0 {
        1
    } else {
        128 * pow128((n - 1) as nat)
    }
}

/// The 32-bit value of the VarInt at the front of `s`.
pub open spec fn varint_u32(s: Seq<u8>) -> Result<(u32, nat), ProtocolError> {
    match varint_parse(s, 5) {
        Ok((v, n)) => Ok(((v % 0x1_0000_0000) as u32, n)),
        Err(e) => Err(e),
    }
}

/// The big-endian value of `s`.
pub open spec fn be_value(s: Seq<u8>) -> nat
    decreases s.len(),
{
    if s.len() == 0 {
        0
    } else {
        be_value(s.drop_last()) * 256 + s.last() as nat
    }
}

/// The big-endian bytes of `v`, `n` of them.
pub open spec fn be_bytes(v: nat, n: nat) -> Seq<u8>
    decreases n,
{
    if n == 0 {
        seq![]
    } else {
        be_bytes(v / 256, (n - 1) as nat).push((v % 256) as u8)
    }
}

/// The string field encoding: the byte length as a VarInt, then the UTF-8 bytes.
pub open spec fn string_spec(s: Seq<char>) -> Seq<u8> {
    varint_spec(encode_utf8(s).len()) + encode_utf8(s)
}

/// A byte array prefixed by its length.
pub open spec fn prefixed_spec(b: Seq<u8>) -> Seq<u8> {
    varint_spec(b.len()) + b
}

/// The 32-bit zigzag decoding: even values are non-negative, odd values negative.
pub open spec fn zigzag_decode(n: u32) -> int {
    if n % 2 == 0 {
        (n / 2) as int
    } else {
        -((n / 2) as int) - 1
    }
}

proof fn lemma_pow128_mono(a: nat, b: nat)
    requires
        a <= b,
    ensures
        pow128(a) <= pow128(b),
    decreases b,
{
    if a < b {
        lemma_pow128_mono(a, (b - 1) as nat);
    }
}

proof fn lemma_varint_parse_bound(s: Seq<u8>, fuel: nat)
    ensures
        varint_parse(s, fuel) matches Ok((v, n)) ==> 1 <= n <= s.len() && (n <= fuel || n == 1)
            && v < pow128(n),
    decreases fuel,
{
    assert(pow128(1) == 128) by {
        reveal_with_fuel(pow128, 2);
    }
    if s.len() > 0 && s[0] >= 128 && fuel > 1 {
        let t = s.drop_first();
        lemma_varint_parse_bound(t, (fuel - 1) as nat);
        if let Ok((v, n)) = varint_parse(t, (fuel - 1) as nat) {
            let low = (s[0] - 128) as nat;
            let p = pow128(n);
            assert(pow128(n + 1) == 128 * p);
            assert(low + 128 * v < 128 * p) by (nonlinear_arith)
                requires
                    low < 128,
                    v < p,
            ;
        }
    }
}

/// Reading back the encoding of `v`, whatever follows it, gives `v` and the
/// encoding's length.
pub proof fn lemma_varint_round_trip(v: nat, rest: Seq<u8>, fuel: nat)
    requires
        varint_spec(v).len() <= fuel,
    ensures
        varint_parse(varint_spec(v) + rest, fuel) == Ok::<(nat, nat), ProtocolError>(
            (v, varint_spec(v).len()),
        ),
    decreases v,
{
    let s = varint_spec(v) + rest;
    if v >= 128 {
        let t = varint_spec(v / 128);
        assert(s.drop_first() =~= t + rest);
        lemma_varint_round_trip(v / 128, rest, (fuel - 1) as nat);
    }
}

/// A value below 128 to the power `n` takes at most `n` bytes.
pub proof fn lemma_varint_len(v: nat, n: nat)
    requires
        v < pow128(n),
        n >= 1,
    ensures
        varint_spec(v).len() <= n,
    decreases v,
{
    assert(pow128(1) == 128) by {
        reveal_with_fuel(pow128, 2);
    }
    if v >= 128 {
        if n == 1 {
            assert(false);
        }
        let p = pow128((n - 1) as nat);
        assert(v / 128 < p) by (nonlinear_arith)
            requires
                v < 128 * p,
        ;
        lemma_varint_len(v / 128, (n - 1) as nat);
    }
}

proof fn lemma_pow128_5()
    ensures
        pow128(5) == 0x8_0000_0000,
        pow128(4) == 0x1000_0000,
{
    reveal_with_fuel(pow128, 6);
}

/// Any value below 2^32 takes at most five bytes.
pub proof fn lemma_varint_u32_len(v: nat)
    requires
        v < 0x1_0000_0000,
    ensures
        varint_spec(v).len() <= 5,
{
    lemma_pow128_5();
    lemma_varint_len(v, 5);
}

/// The VarInt of a 32-bit value reads back as that value.
pub proof fn lemma_varint_u32_round_trip(v: u32, rest: Seq<u8>)
    ensures
        varint_u32(varint_spec(v as nat) + rest) == Ok::<(u32, nat), ProtocolError>(
            (v, varint_spec(v as nat).len()),
        ),
{
    lemma_varint_u32_len(v as nat);
    lemma_varint_round_trip(v as nat, rest, 5);
}

/// A copy of `data[from..to]`.
pub fn copy_bytes(data: &Vec<u8>, from: usize, to: usize) -> (r: Vec<u8>)
    requires
        from <= to <= data@.len(),
    ensures
        r@ == data@.subrange(from as int, to as int),
{
    let mut r: Vec<u8> = Vec::new();
    let mut i: usize = from;
    while i < to
        invariant
            from <= i <= to <= data@.len(),
            r@ == data@.subrange(from as int, i as int),
        decreases to - i,
    {
        r.push(data[i]);
        i = i + 1;
    }
    r
}

/// Appends `b` to `out`.
pub fn append_bytes(out: &mut Vec<u8>, b: &Vec<u8>)
    ensures
        final(out)@ == old(out)@ + b@,
{
    let mut i: usize = 0;
    while i < b.len()
        invariant
            i <= b@.len(),
            out@ == old(out)@ + b@.subrange(0, i as int),
        decreases b.len() - i,
    {
        out.push(b[i]);
        i = i + 1;
        assert(b@.subrange(0, i as int) =~= b@.subrange(0, i - 1 as int).push(b@[i - 1]));
    }
    assert(b@.subrange(0, b@.len() as int) =~= b@);
}

fn read_varint_fuel(data: &Vec<u8>, pos: usize, fuel: usize) -> (r: Result<(u64, usize), ProtocolError>)
    requires
        pos <= data@.len(),
        1 <= fuel <= 5,
    ensures
        match (r, varint_parse(data@.skip(pos as int), fuel as nat)) {
            (Ok((v, n)), Ok((sv, sn))) => v == sv && n == sn,
            (Err(e), Err(se)) => e == se,
            _ => false,
        },
    decreases fuel,
{
    let ghost s = data@.skip(pos as int);
    if pos >= data.len() {
        return Err(ProtocolError::EndOfStream);
    }
    let b = data[pos];
    assert(s[0] == b);
    if b < 128 {
        return Ok((b as u64, 1));
    }
    if fuel <= 1 {
        return Err(ProtocolError::InvalidVarInt);
    }
    assert(s.drop_first() =~= data@.skip(pos + 1));
    let sub = read_varint_fuel(data, pos + 1, fuel - 1);
    match sub {
        Ok((v, n)) => {
            proof {
                lemma_varint_parse_bound(s.drop_first(), (fuel - 1) as nat);
                lemma_pow128_mono(n as nat, 4);
                lemma_pow128_5();
            }
            Ok(((b - 128) as u64 + 128 * v, n + 1))
        },
        Err(e) => Err(e),
    }
}

/// Reads the VarInt at `pos` as 32 bits; returns it and the position after it.
pub fn read_varint(data: &Vec<u8>, pos: usize) -> (r: Result<(u32, usize), ProtocolError>)
    requires
        pos <= data@.len(),
    ensures
        r matches Ok((_, p)) ==> pos <= p <= data@.len(),
        match (r, varint_u32(data@.skip(pos as int))) {
            (Ok((v, p)), Ok((sv, sn))) => v == sv && p == pos + sn,
            (Err(e), Err(se)) => e == se,
            _ => false,
        },
{
    match read_varint_fuel(data, pos, 5) {
        Ok((v, n)) => {
            proof {
                lemma_varint_parse_bound(data@.skip(pos as int), 5);
                assert(data@.skip(pos as int).len() == data@.len() - pos);
            }
            let total = data.len();
            assert(n <= total - pos);
            Ok(((v % 0x1_0000_0000) as u32, pos + n))
        },
        Err(e) => Err(e),
    }
}

/// Appends the VarInt encoding of `v`.
pub fn write_varint(out: &mut Vec<u8>, v: u32)
    ensures
        final(out)@ == old(out)@ + varint_spec(v as nat),
{
    let mut cur: u32 = v;
    while cur >= 128
        invariant
            out@ + varint_spec(cur as nat) == old(out)@ + varint_spec(v as nat),
        decreases cur,
    {
        let ghost before = out@;
        out.push((cur % 128 + 128) as u8);
        assert(before + varint_spec(cur as nat) =~= out@ + varint_spec((cur / 128) as nat));
        cur = cur / 128;
    }
    out.push(cur as u8);
    assert(varint_spec(cur as nat) =~= seq![cur as u8]);
}

/// Reads a VarInt that must fit an unsigned 16-bit value.
pub fn read_u16_varint(data: &Vec<u8>, pos: usize) -> (r: Result<(u16, usize), ProtocolError>)
    requires
        pos <= data@.len(),
    ensures
        r matches Ok((_, p)) ==> pos <= p <= data@.len(),
        match (r, varint_u32(data@.skip(pos as int))) {
            (Ok((v, p)), Ok((sv, sn))) => sv <= 0xffff && v == sv && p == pos + sn,
            (Err(e), Ok((sv, _))) => sv > 0xffff && e == ProtocolError::InvalidVarInt,
            (Err(e), Err(se)) => e == se,
            _ => false,
        },
{
    match read_varint(data, pos) {
        Ok((v, p)) => if v <= 0xffff {
            Ok((v as u16, p))
        } else {
            Err(ProtocolError::InvalidVarInt)
        },
        Err(e) => Err(e),
    }
}

/// Reads a VarInt that must fit an unsigned 8-bit value.
pub fn read_u8_varint(data: &Vec<u8>, pos: usize) -> (r: Result<(u8, usize), ProtocolError>)
    requires
        pos <= data@.len(),
    ensures
        r matches Ok((_, p)) ==> pos <= p <= data@.len(),
        match (r, varint_u32(data@.skip(pos as int))) {
            (Ok((v, p)), Ok((sv, sn))) => sv <= 0xff && v == sv && p == pos + sn,
            (Err(e), Ok((sv, _))) => sv > 0xff && e == ProtocolError::InvalidVarInt,
            (Err(e), Err(se)) => e == se,
            _ => false,
        },
{
    match read_varint(data, pos) {
        Ok((v, p)) => if v <= 0xff {
            Ok((v as u8, p))
        } else {
            Err(ProtocolError::InvalidVarInt)
        },
        Err(e) => Err(e),
    }
}

/// Reads a VarInt that must be a non-negative 32-bit signed value, as a length.
pub fn read_usize_varint(data: &Vec<u8>, pos: usize) -> (r: Result<(usize, usize), ProtocolError>)
    requires
        pos <= data@.len(),
    ensures
        r matches Ok((_, p)) ==> pos <= p <= data@.len(),
        match (r, varint_u32(data@.skip(pos as int))) {
            (Ok((v, p)), Ok((sv, sn))) => sv <= MAX_LENGTH && v == sv && p == pos + sn,
            (Err(e), Ok((sv, _))) => sv > MAX_LENGTH && e == ProtocolError::InvalidVarInt,
            (Err(e), Err(se)) => e == se,
            _ => false,
        },
{
    match read_varint(data, pos) {
        Ok((v, p)) => if v as usize <= MAX_LENGTH {
            Ok((v as usize, p))
        } else {
            Err(ProtocolError::InvalidVarInt)
        },
        Err(e) => Err(e),
    }
}

pub open spec fn pow256(n: nat) -> nat
    decreases n,
{
    if n == 0 {
        1
    } else {
        256 * pow256((n - 1) as nat)
    }
}

/// Reading a string field from the front of `s`: its characters and the
/// number of bytes it took.
pub open spec fn string_parse(s: Seq<u8>) -> Result<(Seq<char>, nat), ProtocolError> {
    match prefixed_parse(s) {
        Ok((b, n)) => if valid_utf8(b) {
            Ok((decode_utf8(b), n))
        } else {
            Err(ProtocolError::InvalidUtf8)
        },
        Err(e) => Err(e),
    }
}

/// Reading a length-prefixed byte array from the front of `s`.
pub open spec fn prefixed_parse(s: Seq<u8>) -> Result<(Seq<u8>, nat), ProtocolError> {
    match varint_u32(s) {
        Ok((len, n)) => if len > MAX_LENGTH {
            Err(ProtocolError::InvalidVarInt)
        } else {
            bytes_parse(s, n, len as nat)
        },
        Err(e) => Err(e),
    }
}

/// Taking `len` raw bytes of `s` from `at`: the bytes and the position after them.
pub open spec fn bytes_parse(s: Seq<u8>, at: nat, len: nat) -> Result<(Seq<u8>, nat), ProtocolError> {
    if at + len > s.len() {
        Err(ProtocolError::EndOfStream)
    } else {
        Ok((s.subrange(at as int, (at + len) as int), at + len))
    }
}

proof fn lemma_be_value_bound(s: Seq<u8>)
    ensures
        be_value(s) < pow256(s.len()),
    decreases s.len(),
{
    if s.len() > 0 {
        let t = s.drop_last();
        lemma_be_value_bound(t);
        let a = be_value(t);
        let p = pow256(t.len());
        let b = s.last() as nat;
        assert(a * 256 + b < 256 * p) by (nonlinear_arith)
            requires
                a < p,
                b < 256,
        ;
    }
}

proof fn lemma_pow256_pos(n: nat)
    ensures
        pow256(n) >= 1,
    decreases n,
{
    if n > 0 {
        lemma_pow256_pos((n - 1) as nat);
    }
}

proof fn lemma_pow256_mono(a: nat, b: nat)
    requires
        a <= b,
    ensures
        pow256(a) <= pow256(b),
    decreases b,
{
    if a < b {
        lemma_pow256_mono(a, (b - 1) as nat);
    }
}

/// The big-endian bytes of `v` read back as `v` modulo the range of `n` bytes.
pub proof fn lemma_be_round_trip(v: nat, n: nat)
    ensures
        be_bytes(v, n).len() == n,
        be_value(be_bytes(v, n)) == v % pow256(n),
    decreases n,
{
    if n > 0 {
        lemma_be_round_trip(v / 256, (n - 1) as nat);
        let s = be_bytes(v, n);
        assert(s.drop_last() =~= be_bytes(v / 256, (n - 1) as nat));
        lemma_pow256_pos((n - 1) as nat);
        lemma_mod_breakdown(v as int, 256, pow256((n - 1) as nat) as int);
    }
}

proof fn lemma_pow256_values()
    ensures
        pow256(2) == 0x1_0000,
        pow256(16) == 0x1_0000_0000_0000_0000_0000_0000_0000_0000,
{
    reveal_with_fuel(pow256, 17);
}

/// Reads `len` raw bytes at `pos`.
pub fn read_bytes(data: &Vec<u8>, pos: usize, len: usize) -> (r: Result<(Vec<u8>, usize), ProtocolError>)
    requires
        pos <= data@.len(),
    ensures
        r matches Ok((_, p)) ==> pos <= p <= data@.len(),
        match (r, bytes_parse(data@, pos as nat, len as nat)) {
            (Ok((v, p)), Ok((sv, sp))) => v@ == sv && p == sp,
            (Err(e), Err(se)) => e == se,
            _ => false,
        },
{
    if len > data.len() - pos {
        return Err(ProtocolError::EndOfStream);
    }
    Ok((copy_bytes(data, pos, pos + len), pos + len))
}

/// Reads a length-prefixed byte array at `pos`.
pub fn read_prefixed_bytes(data: &Vec<u8>, pos: usize) -> (r: Result<(Vec<u8>, usize), ProtocolError>)
    requires
        pos <= data@.len(),
    ensures
        r matches Ok((_, p)) ==> pos <= p <= data@.len(),
        match (r, prefixed_parse(data@.skip(pos as int))) {
            (Ok((v, p)), Ok((sv, sn))) => v@ == sv && p == pos + sn,
            (Err(e), Err(se)) => e == se,
            _ => false,
        },
{
    let ghost s = data@.skip(pos as int);
    match read_usize_varint(data, pos) {
        Ok((len, p)) => {
            proof {
                lemma_varint_parse_bound(s, 5);
            }
            let r = read_bytes(data, p, len);
            proof {
                let n = (p - pos) as nat;
                assert(s.len() == data@.len() - pos);
                if p + len <= data@.len() {
                    assert(s.subrange(n as int, (n + len) as int) =~= data@.subrange(
                        p as int,
                        p + len,
                    ));
                }
            }
            match r {
                Ok((b, q)) => Ok((b, q)),
                Err(e) => Err(e),
            }
        },
        Err(e) => Err(e),
    }
}

/// Relies on `String::from_utf8`: it accepts exactly the valid UTF-8 byte
/// sequences and returns the characters they encode.
#[verifier::external_body]
fn string_from_utf8(bytes: Vec<u8>) -> (r: Option<String>)
    ensures
        r is Some <==> valid_utf8(bytes@),
        r matches Some(s) ==> s@ == decode_utf8(bytes@),
{
    String::from_utf8(bytes).ok()
}

/// Reads a string field at `pos`.
pub fn read_string(data: &Vec<u8>, pos: usize) -> (r: Result<(String, usize), ProtocolError>)
    requires
        pos <= data@.len(),
    ensures
        r matches Ok((_, p)) ==> pos <= p <= data@.len(),
        match (r, string_parse(data@.skip(pos as int))) {
            (Ok((v, p)), Ok((sv, sn))) => v@ == sv && p == pos + sn,
            (Err(e), Err(se)) => e == se,
            _ => false,
        },
{
    match read_prefixed_bytes(data, pos) {
        Ok((b, p)) => match string_from_utf8(b) {
            Some(s) => Ok((s, p)),
            None => Err(ProtocolError::InvalidUtf8),
        },
        Err(e) => Err(e),
    }
}

/// Appends a length-prefixed byte array; fails, writing nothing, when the
/// length does not fit a VarInt length.
pub fn write_prefixed_bytes(out: &mut Vec<u8>, b: &[u8]) -> (r: Result<(), ProtocolError>)
    ensures
        b@.len() <= MAX_LENGTH ==> r is Ok && final(out)@ == old(out)@ + prefixed_spec(b@),
        b@.len() > MAX_LENGTH ==> r == Err::<(), ProtocolError>(ProtocolError::InvalidVarInt)
            && final(out)@ == old(out)@,
{
    if b.len() > MAX_LENGTH {
        return Err(ProtocolError::InvalidVarInt);
    }
    write_varint(out, b.len() as u32);
    let ghost mid = out@;
    let mut i: usize = 0;
    while i < b.len()
        invariant
            i <= b@.len(),
            out@ == mid + b@.subrange(0, i as int),
        decreases b.len() - i,
    {
        out.push(b[i]);
        i = i + 1;
        assert(b@.subrange(0, i as int) =~= b@.subrange(0, i - 1 as int).push(b@[i - 1]));
    }
    assert(b@.subrange(0, b@.len() as int) =~= b@);
    assert(out@ =~= old(out)@ + prefixed_spec(b@));
    Ok(())
}

/// Appends a string field; fails, writing nothing, when its UTF-8 length does
/// not fit a VarInt length.
pub fn write_string(out: &mut Vec<u8>, s: &str) -> (r: Result<(), ProtocolError>)
    ensures
        encode_utf8(s@).len() <= MAX_LENGTH ==> r is Ok && final(out)@ == old(out)@ + string_spec(s@),
        encode_utf8(s@).len() > MAX_LENGTH ==> r == Err::<(), ProtocolError>(
            ProtocolError::InvalidVarInt,
        ) && final(out)@ == old(out)@,
{
    write_prefixed_bytes(out, s.as_bytes())
}

/// Reading back a length-prefixed byte array gives the bytes.
pub proof fn lemma_prefixed_round_trip(b: Seq<u8>, rest: Seq<u8>)
    requires
        b.len() <= MAX_LENGTH,
    ensures
        prefixed_parse(prefixed_spec(b) + rest) == Ok::<(Seq<u8>, nat), ProtocolError>(
            (b, prefixed_spec(b).len()),
        ),
{
    let v = varint_spec(b.len());
    let s = prefixed_spec(b) + rest;
    assert(s =~= v + (b + rest));
    lemma_varint_u32_round_trip(b.len() as u32, b + rest);
    assert(s.subrange(v.len() as int, (v.len() + b.len()) as int) =~= b);
}

/// Reading back a string field gives the string.
pub proof fn lemma_string_round_trip(c: Seq<char>, rest: Seq<u8>)
    requires
        encode_utf8(c).len() <= MAX_LENGTH,
    ensures
        string_parse(string_spec(c) + rest) == Ok::<(Seq<char>, nat), ProtocolError>(
            (c, string_spec(c).len()),
        ),
{
    lemma_prefixed_round_trip(encode_utf8(c), rest);
    encode_utf8_valid_utf8(c);
    encode_utf8_decode_utf8(c);
}

fn read_be(data: &Vec<u8>, pos: usize, n: usize) -> (r: Result<(u128, usize), ProtocolError>)
    requires
        pos <= data@.len(),
        n <= 16,
    ensures
        match (r, bytes_parse(data@, pos as nat, n as nat)) {
            (Ok((v, p)), Ok((b, sp))) => v == be_value(b) && p == sp,
            (Err(e), Err(se)) => e == se,
            _ => false,
        },
{
    if n > data.len() - pos {
        return Err(ProtocolError::EndOfStream);
    }
    let end = pos + n;
    let mut acc: u128 = 0;
    let mut i: usize = 0;
    while i < n
        invariant
            i <= n <= 16,
            end == pos + n,
            pos + n <= data@.len(),
            acc == be_value(data@.subrange(pos as int, pos + i)),
        decreases n - i,
    {
        let ghost t = data@.subrange(pos as int, pos + i);
        proof {
            lemma_be_value_bound(t);
            lemma_pow256_mono(i as nat, 15);
            lemma_pow256_values();
            assert(pow256(16) == 256 * pow256(15));
            assert(acc * 256 + 255 < 256 * pow256(15)) by (nonlinear_arith)
                requires
                    acc < pow256(i as nat),
                    pow256(i as nat) <= pow256(15),
            ;
        }
        acc = acc * 256 + data[pos + i] as u128;
        i = i + 1;
        assert(data@.subrange(pos as int, pos + i).drop_last() =~= t);
    }
    Ok((acc, pos + n))
}

fn write_be(out: &mut Vec<u8>, v: u128, n: usize)
    ensures
        final(out)@ == old(out)@ + be_bytes(v as nat, n as nat),
    decreases n,
{
    if n > 0 {
        write_be(out, v / 256, n - 1);
        out.push((v % 256) as u8);
    }
}

/// The 16-bit big-endian value at the front of `s`.
pub open spec fn ushort_parse(s: Seq<u8>) -> Result<(u16, nat), ProtocolError> {
    match bytes_parse(s, 0, 2) {
        Ok((b, n)) => Ok((be_value(b) as u16, n)),
        Err(e) => Err(e),
    }
}

/// The 128-bit big-endian value at the front of `s`.
pub open spec fn uuid_parse(s: Seq<u8>) -> Result<(u128, nat), ProtocolError> {
    match bytes_parse(s, 0, 16) {
        Ok((b, n)) => Ok((be_value(b) as u128, n)),
        Err(e) => Err(e),
    }
}

proof fn lemma_bytes_parse_skip(data: Seq<u8>, pos: nat, n: nat)
    requires
        pos <= data.len(),
    ensures
        match (bytes_parse(data, pos, n), bytes_parse(data.skip(pos as int), 0, n)) {
            (Ok((b, p)), Ok((sb, sp))) => b == sb && p == pos + sp,
            (Err(e), Err(se)) => e == se,
            _ => false,
        },
{
    if pos + n <= data.len() {
        assert(data.subrange(pos as int, (pos + n) as int) =~= data.skip(pos as int).subrange(0, n as int));
    }
}

/// Reads an unsigned short (two bytes, big-endian) at `pos`.
pub fn read_unsigned_short(data: &Vec<u8>, pos: usize) -> (r: Result<(u16, usize), ProtocolError>)
    requires
        pos <= data@.len(),
    ensures
        r matches Ok((_, p)) ==> pos <= p <= data@.len(),
        match (r, ushort_parse(data@.skip(pos as int))) {
            (Ok((v, p)), Ok((sv, sn))) => v == sv && p == pos + sn,
            (Err(e), Err(se)) => e == se,
            _ => false,
        },
{
    proof {
        lemma_bytes_parse_skip(data@, pos as nat, 2);
    }
    match read_be(data, pos, 2) {
        Ok((v, p)) => {
            proof {
                lemma_be_value_bound(data@.subrange(pos as int, pos + 2));
                lemma_pow256_values();
            }
            Ok((v as u16, p))
        },
        Err(e) => Err(e),
    }
}

/// Reads a UUID (sixteen bytes, most significant first) at `pos`.
pub fn read_uuid(data: &Vec<u8>, pos: usize) -> (r: Result<(u128, usize), ProtocolError>)
    requires
        pos <= data@.len(),
    ensures
        r matches Ok((_, p)) ==> pos <= p <= data@.len(),
        match (r, uuid_parse(data@.skip(pos as int))) {
            (Ok((v, p)), Ok((sv, sn))) => v == sv && p == pos + sn,
            (Err(e), Err(se)) => e == se,
            _ => false,
        },
{
    proof {
        lemma_bytes_parse_skip(data@, pos as nat, 16);
    }
    read_be(data, pos, 16)
}

/// Appends an unsigned short, big-endian.
pub fn write_unsigned_short(out: &mut Vec<u8>, v: u16)
    ensures
        final(out)@ == old(out)@ + be_bytes(v as nat, 2),
{
    write_be(out, v as u128, 2);
}

/// Appends a UUID, most significant byte first.
pub fn write_uuid(out: &mut Vec<u8>, v: u128)
    ensures
        final(out)@ == old(out)@ + be_bytes(v as nat, 16),
{
    write_be(out, v, 16);
}

/// Appends a boolean as one byte.
pub fn write_boolean(out: &mut Vec<u8>, v: bool)
    ensures
        final(out)@ == old(out)@.push(if v { 1u8 } else { 0u8 }),
{
    out.push(if v { 1u8 } else { 0u8 });
}

/// The compression threshold that a set-compression value announces: the
/// zigzag decoding of its VarInt, where a negative result disables compression.
pub open spec fn threshold_spec(raw: u32) -> Option<usize> {
    if zigzag_decode(raw) >= 0 {
        Some(zigzag_decode(raw) as usize)
    } else {
        None
    }
}

/// The compression threshold announced by the raw VarInt `raw`.
pub fn decode_threshold(raw: u32) -> (r: Option<usize>)
    ensures
        r == threshold_spec(raw),
{
    if raw % 2 == 0 {
        Some((raw / 2) as usize)
    } else {
        None
    }
}

/// Reading back an unsigned short gives it.
pub proof fn lemma_ushort_round_trip(v: u16, rest: Seq<u8>)
    ensures
        ushort_parse(be_bytes(v as nat, 2) + rest) == Ok::<(u16, nat), ProtocolError>((v, 2nat)),
{
    lemma_be_round_trip(v as nat, 2);
    lemma_pow256_values();
    let s = be_bytes(v as nat, 2) + rest;
    assert(s.subrange(0, 2) =~= be_bytes(v as nat, 2));
}

/// Reading back a UUID gives it.
pub proof fn lemma_uuid_round_trip(v: u128, rest: Seq<u8>)
    ensures
        uuid_parse(be_bytes(v as nat, 16) + rest) == Ok::<(u128, nat), ProtocolError>((v, 16nat)),
{
    lemma_be_round_trip(v as nat, 16);
    lemma_pow256_values();
    let s = be_bytes(v as nat, 16) + rest;
    assert(s.subrange(0, 16) =~= be_bytes(v as nat, 16));
}

} // verus!
