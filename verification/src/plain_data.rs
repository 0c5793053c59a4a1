//! Plain data: fixed-size values of which every bit pattern is valid, and
//! their layout in the target's memory.
//!
//! Integers are laid out little-endian, least significant byte first, and
//! signed integers in two's complement.

use vstd::prelude::*;

verus! {

/// The number of values that `width` bytes can hold: 256 to the power `width`.
pub open spec fn radix(width: nat) -> nat
    decreases width,
{
    if width == 0 {
        1
    } else {
        256 * radix((width - 1) as nat)
    }
}

/// The number that `bytes` spell, least significant byte first.
pub open spec fn le_value(bytes: Seq<u8>) -> nat
    decreases bytes.len(),
{
    if bytes.len() == 0 {
        0
    } else {
        bytes[0] as nat + 256 * le_value(bytes.drop_first())
    }
}

/// The `width` low bytes of `value`, least significant byte first.
pub open spec fn le_bytes(value: nat, width: nat) -> Seq<u8>
    decreases width,
{
    if width == 0 {
        Seq::empty()
    } else {
        seq![(value % 256) as u8] + le_bytes(value / 256, (width - 1) as nat)
    }
}

/// The unsigned number whose low `width` bytes are the two's complement
/// form of `value`.
pub open spec fn twos_complement(value: int, width: nat) -> nat {
    if value < 0 {
        (value + radix(width)) as nat
    } else {
        value as nat
    }
}

/// The signed number whose two's complement form in `width` bytes is `value`.
pub open spec fn from_twos_complement(value: nat, width: nat) -> int {
    if 2 * value >= radix(width) {
        value - radix(width)
    } else {
        value as int
    }
}

/// The values of `radix` at the widths of the integer types.
pub proof fn lemma_radix_values()
    ensures
        radix(1) == 0x100,
        radix(2) == 0x1_0000,
        radix(4) == 0x1_0000_0000,
        radix(8) == 0x1_0000_0000_0000_0000,
{
    assert(radix(1) == 256 * radix(0));
    assert(radix(2) == 256 * radix(1));
    assert(radix(3) == 256 * radix(2));
    assert(radix(4) == 256 * radix(3));
    assert(radix(5) == 256 * radix(4));
    assert(radix(6) == 256 * radix(5));
    assert(radix(7) == 256 * radix(6));
    assert(radix(8) == 256 * radix(7));
}

/// `le_bytes` yields exactly `width` bytes.
pub proof fn lemma_le_bytes_len(value: nat, width: nat)
    ensures
        le_bytes(value, width).len() == width,
    decreases width,
{
    if width > 0 {
        lemma_le_bytes_len(value / 256, (width - 1) as nat);
    }
}

/// What `bytes` spell is below the number of values of their width.
pub proof fn lemma_le_value_bound(bytes: Seq<u8>)
    ensures
        le_value(bytes) < radix(bytes.len()),
    decreases bytes.len(),
{
    if bytes.len() > 0 {
        lemma_le_value_bound(bytes.drop_first());
        let rest = le_value(bytes.drop_first());
        let top = radix((bytes.len() - 1) as nat);
        assert(bytes[0] as nat + 256 * rest < 256 * top) by (nonlinear_arith)
            requires
                bytes[0] < 256,
                rest < top,
        ;
    }
}

/// The bytes of a number that fits in `width` bytes spell that number.
pub proof fn lemma_le_value_of_bytes(value: nat, width: nat)
    requires
        value < radix(width),
    ensures
        le_value(le_bytes(value, width)) == value,
    decreases width,
{
    if width > 0 {
        let low = seq![(value % 256) as u8];
        let high = le_bytes(value / 256, (width - 1) as nat);
        assert(value / 256 < radix((width - 1) as nat)) by (nonlinear_arith)
            requires
                value < 256 * radix((width - 1) as nat),
        ;
        lemma_le_value_of_bytes(value / 256, (width - 1) as nat);
        assert((low + high).drop_first() =~= high);
        assert((low + high)[0] == (value % 256) as u8);
        assert(value == value % 256 + 256 * (value / 256)) by (nonlinear_arith);
    }
}

/// The number that `bytes` spell has exactly the bytes `bytes`.
pub proof fn lemma_le_bytes_of_value(bytes: Seq<u8>)
    ensures
        le_bytes(le_value(bytes), bytes.len()) == bytes,
    decreases bytes.len(),
{
    if bytes.len() > 0 {
        let rest = bytes.drop_first();
        let value = le_value(bytes);
        lemma_le_bytes_of_value(rest);
        assert(value % 256 == bytes[0] as nat && value / 256 == le_value(rest))
            by (nonlinear_arith)
            requires
                value == bytes[0] as nat + 256 * le_value(rest),
                bytes[0] < 256,
        ;
        assert(le_bytes(value, bytes.len()) =~= bytes);
    } else {
        assert(le_bytes(le_value(bytes), bytes.len()) =~= bytes);
    }
}

/// The `width` low bytes of `value`.
fn encode_le(value: u64, width: usize) -> (bytes: Vec<u8>)
    requires
        width <= 8,
    ensures
        bytes@ == le_bytes(value as nat, width as nat),
{
    let mut bytes: Vec<u8> = Vec::new();
    let mut rest: u64 = value;
    let mut done: usize = 0;
    assert(bytes@ + le_bytes(rest as nat, width as nat) =~= le_bytes(value as nat, width as nat));
    while done < width
        invariant
            done <= width,
            bytes@ + le_bytes(rest as nat, (width - done) as nat) == le_bytes(
                value as nat,
                width as nat,
            ),
        decreases width - done,
    {
        let ghost before = bytes@;
        let ghost tail = le_bytes((rest / 256) as nat, (width - done - 1) as nat);
        assert(le_bytes(rest as nat, (width - done) as nat) == seq![(rest % 256) as u8] + tail);
        bytes.push((rest % 256) as u8);
        assert(bytes@ + tail =~= before + (seq![(rest % 256) as u8] + tail));
        rest = rest / 256;
        done += 1;
    }
    assert(bytes@ + le_bytes(rest as nat, 0) =~= bytes@);
    bytes
}

/// The number that at most eight bytes spell.
fn decode_le(bytes: &[u8]) -> (value: u64)
    requires
        bytes@.len() <= 8,
    ensures
        value == le_value(bytes@),
{
    let mut value: u64 = 0;
    let mut at: usize = bytes.len();
    assert(bytes@.subrange(at as int, bytes@.len() as int) =~= Seq::empty());
    while at > 0
        invariant
            at <= bytes@.len() <= 8,
            value == le_value(bytes@.subrange(at as int, bytes@.len() as int)),
        decreases at,
    {
        let ghost upper = bytes@.subrange(at as int, bytes@.len() as int);
        let ghost whole = bytes@.subrange(at - 1, bytes@.len() as int);
        proof {
            assert(whole.drop_first() =~= upper);
            assert(whole[0] == bytes@[at - 1]);
            lemma_le_value_bound(upper);
            lemma_radix_values();
            lemma_radix_monotonic(upper.len(), 7);
            assert(radix(8) == 256 * radix(7));
            assert(value * 256 + 255 < 256 * radix(7)) by (nonlinear_arith)
                requires
                    value < radix(7),
            ;
        }
        at -= 1;
        value = value * 256 + bytes[at] as u64;
    }
    assert(bytes@.subrange(0, bytes@.len() as int) =~= bytes@);
    value
}

/// More bytes hold at least as many values.
pub proof fn lemma_radix_monotonic(narrow: nat, wide: nat)
    requires
        narrow <= wide,
    ensures
        0 < radix(narrow) <= radix(wide),
    decreases wide,
{
    if wide == 0 {
    } else if narrow == wide {
        lemma_radix_monotonic((narrow - 1) as nat, (wide - 1) as nat);
    } else {
        lemma_radix_monotonic(narrow, (wide - 1) as nat);
    }
}

/// Two's complement is a bijection between the signed and the unsigned
/// numbers of a width.
pub proof fn lemma_twos_complement(value: int, width: nat)
    requires
        -radix(width) <= 2 * value < radix(width),
    ensures
        twos_complement(value, width) < radix(width),
        from_twos_complement(twos_complement(value, width), width) == value,
{
}

/// Every unsigned number of a width is the two's complement form of the
/// signed number it stands for.
pub proof fn lemma_from_twos_complement(value: nat, width: nat)
    requires
        value < radix(width),
    ensures
        -radix(width) <= 2 * from_twos_complement(value, width) < radix(width),
        twos_complement(from_twos_complement(value, width), width) == value,
{
}

/// A fixed-size value type of which every bit pattern is a valid value, so
/// that it can be copied to and from the memory of another process.
pub trait PlainData: Sized {
    /// The size of a value in bytes.
    spec fn width() -> usize;

    /// The bytes of a value as they stand in memory.
    spec fn to_bytes(self) -> Seq<u8>;

    /// The value that `width()` bytes of memory hold.
    spec fn from_bytes(bytes: Seq<u8>) -> Self;

    /// A value has `width()` bytes, and they hold that value and no other.
    proof fn lemma_round_trip(value: Self)
        ensures
            value.to_bytes().len() == Self::width(),
            Self::from_bytes(value.to_bytes()) == value,
    ;

    /// Every pattern of `width()` bytes is the layout of the value it holds.
    proof fn lemma_every_pattern(bytes: Seq<u8>)
        requires
            bytes.len() == Self::width(),
        ensures
            Self::from_bytes(bytes).to_bytes() == bytes,
    ;

    /// The size of a value in bytes.
    fn size() -> (size: usize)
        ensures
            size == Self::width(),
    ;

    /// Lays the value out as it stands in memory.
    fn encode(&self) -> (bytes: Vec<u8>)
        ensures
            bytes@ == self.to_bytes(),
    ;

    /// Reads the value that `bytes` hold.
    fn decode(bytes: &[u8]) -> (value: Self)
        requires
            bytes@.len() == Self::width(),
        ensures
            value == Self::from_bytes(bytes@),
    ;
}

impl PlainData for u8 {
    open spec fn width() -> usize {
        1
    }

    open spec fn to_bytes(self) -> Seq<u8> {
        le_bytes(self as nat, 1)
    }

    open spec fn from_bytes(bytes: Seq<u8>) -> u8 {
        le_value(bytes) as u8
    }

    proof fn lemma_round_trip(value: u8) {
        lemma_radix_values();
        lemma_le_bytes_len(value as nat, 1);
        lemma_le_value_of_bytes(value as nat, 1);
    }

    proof fn lemma_every_pattern(bytes: Seq<u8>) {
        lemma_radix_values();
        lemma_le_value_bound(bytes);
        lemma_le_bytes_of_value(bytes);
    }

    fn size() -> (size: usize) {
        1
    }

    fn encode(&self) -> (bytes: Vec<u8>) {
        encode_le(*self as u64, 1)
    }

    fn decode(bytes: &[u8]) -> (value: u8) {
        proof {
            lemma_radix_values();
            lemma_le_value_bound(bytes@);
        }
        decode_le(bytes) as u8
    }
}

impl PlainData for u16 {
    open spec fn width() -> usize {
        2
    }

    open spec fn to_bytes(self) -> Seq<u8> {
        le_bytes(self as nat, 2)
    }

    open spec fn from_bytes(bytes: Seq<u8>) -> u16 {
        le_value(bytes) as u16
    }

    proof fn lemma_round_trip(value: u16) {
        lemma_radix_values();
        lemma_le_bytes_len(value as nat, 2);
        lemma_le_value_of_bytes(value as nat, 2);
    }

    proof fn lemma_every_pattern(bytes: Seq<u8>) {
        lemma_radix_values();
        lemma_le_value_bound(bytes);
        lemma_le_bytes_of_value(bytes);
    }

    fn size() -> (size: usize) {
        2
    }

    fn encode(&self) -> (bytes: Vec<u8>) {
        encode_le(*self as u64, 2)
    }

    fn decode(bytes: &[u8]) -> (value: u16) {
        proof {
            lemma_radix_values();
            lemma_le_value_bound(bytes@);
        }
        decode_le(bytes) as u16
    }
}

impl PlainData for u32 {
    open spec fn width() -> usize {
        4
    }

    open spec fn to_bytes(self) -> Seq<u8> {
        le_bytes(self as nat, 4)
    }

    open spec fn from_bytes(bytes: Seq<u8>) -> u32 {
        le_value(bytes) as u32
    }

    proof fn lemma_round_trip(value: u32) {
        lemma_radix_values();
        lemma_le_bytes_len(value as nat, 4);
        lemma_le_value_of_bytes(value as nat, 4);
    }

    proof fn lemma_every_pattern(bytes: Seq<u8>) {
        lemma_radix_values();
        lemma_le_value_bound(bytes);
        lemma_le_bytes_of_value(bytes);
    }

    fn size() -> (size: usize) {
        4
    }

    fn encode(&self) -> (bytes: Vec<u8>) {
        encode_le(*self as u64, 4)
    }

    fn decode(bytes: &[u8]) -> (value: u32) {
        proof {
            lemma_radix_values();
            lemma_le_value_bound(bytes@);
        }
        decode_le(bytes) as u32
    }
}

impl PlainData for u64 {
    open spec fn width() -> usize {
        8
    }

    open spec fn to_bytes(self) -> Seq<u8> {
        le_bytes(self as nat, 8)
    }

    open spec fn from_bytes(bytes: Seq<u8>) -> u64 {
        le_value(bytes) as u64
    }

    proof fn lemma_round_trip(value: u64) {
        lemma_radix_values();
        lemma_le_bytes_len(value as nat, 8);
        lemma_le_value_of_bytes(value as nat, 8);
    }

    proof fn lemma_every_pattern(bytes: Seq<u8>) {
        lemma_radix_values();
        lemma_le_value_bound(bytes);
        lemma_le_bytes_of_value(bytes);
    }

    fn size() -> (size: usize) {
        8
    }

    fn encode(&self) -> (bytes: Vec<u8>) {
        encode_le(*self, 8)
    }

    fn decode(bytes: &[u8]) -> (value: u64) {
        decode_le(bytes)
    }
}

impl PlainData for i8 {
    open spec fn width() -> usize {
        1
    }

    open spec fn to_bytes(self) -> Seq<u8> {
        le_bytes(twos_complement(self as int, 1), 1)
    }

    open spec fn from_bytes(bytes: Seq<u8>) -> i8 {
        from_twos_complement(le_value(bytes), 1) as i8
    }

    proof fn lemma_round_trip(value: i8) {
        lemma_radix_values();
        lemma_twos_complement(value as int, 1);
        lemma_le_bytes_len(twos_complement(value as int, 1), 1);
        lemma_le_value_of_bytes(twos_complement(value as int, 1), 1);
    }

    proof fn lemma_every_pattern(bytes: Seq<u8>) {
        lemma_radix_values();
        lemma_le_value_bound(bytes);
        lemma_from_twos_complement(le_value(bytes), 1);
        lemma_le_bytes_of_value(bytes);
    }

    fn size() -> (size: usize) {
        1
    }

    fn encode(&self) -> (bytes: Vec<u8>) {
        proof {
            lemma_radix_values();
        }
        let unsigned: u64 = if *self >= 0 {
            *self as u64
        } else {
            (*self - i8::MIN) as u64 + 0x80
        };
        encode_le(unsigned, 1)
    }

    fn decode(bytes: &[u8]) -> (value: i8) {
        proof {
            lemma_radix_values();
            lemma_le_value_bound(bytes@);
        }
        let unsigned: u64 = decode_le(bytes);
        if unsigned >= 0x80 {
            (unsigned - 0x80) as i8 + i8::MIN
        } else {
            unsigned as i8
        }
    }
}

impl PlainData for i16 {
    open spec fn width() -> usize {
        2
    }

    open spec fn to_bytes(self) -> Seq<u8> {
        le_bytes(twos_complement(self as int, 2), 2)
    }

    open spec fn from_bytes(bytes: Seq<u8>) -> i16 {
        from_twos_complement(le_value(bytes), 2) as i16
    }

    proof fn lemma_round_trip(value: i16) {
        lemma_radix_values();
        lemma_twos_complement(value as int, 2);
        lemma_le_bytes_len(twos_complement(value as int, 2), 2);
        lemma_le_value_of_bytes(twos_complement(value as int, 2), 2);
    }

    proof fn lemma_every_pattern(bytes: Seq<u8>) {
        lemma_radix_values();
        lemma_le_value_bound(bytes);
        lemma_from_twos_complement(le_value(bytes), 2);
        lemma_le_bytes_of_value(bytes);
    }

    fn size() -> (size: usize) {
        2
    }

    fn encode(&self) -> (bytes: Vec<u8>) {
        proof {
            lemma_radix_values();
        }
        let unsigned: u64 = if *self >= 0 {
            *self as u64
        } else {
            (*self - i16::MIN) as u64 + 0x8000
        };
        encode_le(unsigned, 2)
    }

    fn decode(bytes: &[u8]) -> (value: i16) {
        proof {
            lemma_radix_values();
            lemma_le_value_bound(bytes@);
        }
        let unsigned: u64 = decode_le(bytes);
        if unsigned >= 0x8000 {
            (unsigned - 0x8000) as i16 + i16::MIN
        } else {
            unsigned as i16
        }
    }
}

impl PlainData for i32 {
    open spec fn width() -> usize {
        4
    }

    open spec fn to_bytes(self) -> Seq<u8> {
        le_bytes(twos_complement(self as int, 4), 4)
    }

    open spec fn from_bytes(bytes: Seq<u8>) -> i32 {
        from_twos_complement(le_value(bytes), 4) as i32
    }

    proof fn lemma_round_trip(value: i32) {
        lemma_radix_values();
        lemma_twos_complement(value as int, 4);
        lemma_le_bytes_len(twos_complement(value as int, 4), 4);
        lemma_le_value_of_bytes(twos_complement(value as int, 4), 4);
    }

    proof fn lemma_every_pattern(bytes: Seq<u8>) {
        lemma_radix_values();
        lemma_le_value_bound(bytes);
        lemma_from_twos_complement(le_value(bytes), 4);
        lemma_le_bytes_of_value(bytes);
    }

    fn size() -> (size: usize) {
        4
    }

    fn encode(&self) -> (bytes: Vec<u8>) {
        proof {
            lemma_radix_values();
        }
        let unsigned: u64 = if *self >= 0 {
            *self as u64
        } else {
            (*self - i32::MIN) as u64 + 0x8000_0000
        };
        encode_le(unsigned, 4)
    }

    fn decode(bytes: &[u8]) -> (value: i32) {
        proof {
            lemma_radix_values();
            lemma_le_value_bound(bytes@);
        }
        let unsigned: u64 = decode_le(bytes);
        if unsigned >= 0x8000_0000 {
            (unsigned - 0x8000_0000) as i32 + i32::MIN
        } else {
            unsigned as i32
        }
    }
}

impl PlainData for i64 {
    open spec fn width() -> usize {
        8
    }

    open spec fn to_bytes(self) -> Seq<u8> {
        le_bytes(twos_complement(self as int, 8), 8)
    }

    open spec fn from_bytes(bytes: Seq<u8>) -> i64 {
        from_twos_complement(le_value(bytes), 8) as i64
    }

    proof fn lemma_round_trip(value: i64) {
        lemma_radix_values();
        lemma_twos_complement(value as int, 8);
        lemma_le_bytes_len(twos_complement(value as int, 8), 8);
        lemma_le_value_of_bytes(twos_complement(value as int, 8), 8);
    }

    proof fn lemma_every_pattern(bytes: Seq<u8>) {
        lemma_radix_values();
        lemma_le_value_bound(bytes);
        lemma_from_twos_complement(le_value(bytes), 8);
        lemma_le_bytes_of_value(bytes);
    }

    fn size() -> (size: usize) {
        8
    }

    fn encode(&self) -> (bytes: Vec<u8>) {
        proof {
            lemma_radix_values();
        }
        let unsigned: u64 = if *self >= 0 {
            *self as u64
        } else {
            (*self - i64::MIN) as u64 + 0x8000_0000_0000_0000
        };
        encode_le(unsigned, 8)
    }

    fn decode(bytes: &[u8]) -> (value: i64) {
        proof {
            lemma_radix_values();
            lemma_le_value_bound(bytes@);
        }
        let unsigned: u64 = decode_le(bytes);
        if unsigned >= 0x8000_0000_0000_0000 {
            (unsigned - 0x8000_0000_0000_0000) as i64 + i64::MIN
        } else {
            unsigned as i64
        }
    }
}

} // verus!
