//! Reading numbers and texts out of a mapping.
//!
//! A mapping that another process writes may hold something else at every read, so
//! contracts say of a value that the mapping was seen to hold it. A byte slice holds
//! the same bytes throughout. Numbers are in the byte order of the machine.

use crate::error::{Error, ErrorView};
use crate::float::Double;
use crate::layout::{MAPPING_NAME, MAPPING_SIZE};
use vstd::arithmetic::power::*;
use vstd::endian::*;
use vstd::prelude::*;

verus! {

/// A block of memory that can be read. Unless an implementation says otherwise it is the
/// mapping of a running source, in which anything may be seen.
pub trait Memory {
    /// The name of the mapping.
    open spec fn mapping_name(&self) -> Seq<char> {
        MAPPING_NAME@
    }

    /// The number of bytes.
    open spec fn size(&self) -> nat {
        MAPPING_SIZE as nat
    }

    /// Whether a read at `offset` may see `bytes`.
    open spec fn may_hold(&self, offset: int, bytes: Seq<u8>) -> bool {
        true
    }

    /// The name of the mapping.
    fn name(&self) -> (name: String)
        ensures
            name@ == self.mapping_name(),
    ;

    /// The number of bytes.
    fn mapping_size(&self) -> (size: usize)
        ensures
            size == self.size(),
    ;

    /// The bytes at `offset`.
    fn fetch(&self, offset: usize, length: usize) -> (bytes: Vec<u8>)
        requires
            offset + length <= self.size(),
        ensures
            bytes@.len() == length,
            self.may_hold(offset as int, bytes@),
    ;
}

impl Memory for [u8] {
    open spec fn mapping_name(&self) -> Seq<char> {
        MAPPING_NAME@
    }

    open spec fn size(&self) -> nat {
        self@.len()
    }

    open spec fn may_hold(&self, offset: int, bytes: Seq<u8>) -> bool {
        bytes == self@.subrange(offset, offset + bytes.len())
    }

    fn name(&self) -> (name: String) {
        MAPPING_NAME.to_owned()
    }

    fn mapping_size(&self) -> (size: usize) {
        self.len()
    }

    fn fetch(&self, offset: usize, length: usize) -> (bytes: Vec<u8>) {
        let size: usize = self.len();
        let mut bytes: Vec<u8> = Vec::new();
        let mut i: usize = 0;
        while i < length
            invariant
                i <= length,
                offset + length <= size,
                size == self@.len(),
                bytes@ == self@.subrange(offset as int, offset + i),
            decreases length - i,
        {
            bytes.push(self[offset + i]);
            i += 1;
            assert(bytes@ == self@.subrange(offset as int, offset + i));
        }
        bytes
    }
}

/// The error of a read that reaches beyond the mapping.
pub open spec fn out_of_bounds<M: Memory + ?Sized>(m: &M, offset: int, length: int) -> ErrorView {
    ErrorView::OutOfBounds {
        name: m.mapping_name(),
        offset: offset as usize,
        value_size: length as usize,
        mapping_size: m.size() as usize,
    }
}

/// The error of reading the spans, given by offset and length, in turn from the one
/// with index `from`: that of the first that reaches beyond the mapping.
pub open spec fn spans_error<M: Memory + ?Sized>(
    m: &M,
    spans: Seq<(int, int)>,
    from: int,
) -> Option<ErrorView>
    decreases spans.len() - from,
{
    if from >= spans.len() {
        None
    } else if spans[from].0 + spans[from].1 > m.size() {
        Some(out_of_bounds(m, spans[from].0, spans[from].1))
    } else {
        spans_error(m, spans, from + 1)
    }
}

/// The number that little-endian bytes stand for.
pub open spec fn le_value(bytes: Seq<u8>) -> nat
    decreases bytes.len(),
{
    if bytes.len() == 0 {
        0
    } else {
        bytes[0] as nat + 256 * le_value(bytes.drop_first())
    }
}

/// The `n` little-endian bytes of a number.
pub open spec fn le_bytes(value: nat, n: nat) -> Seq<u8>
    decreases n,
{
    if n == 0 {
        seq![]
    } else {
        seq![(value % 256) as u8] + le_bytes(value / 256, (n - 1) as nat)
    }
}

/// Little-endian bytes in the order of the machine, and bytes in the order of the machine
/// as little-endian ones: the other way round where the machine is big-endian.
pub open spec fn native_order(bytes: Seq<u8>) -> Seq<u8> {
    match endianness() {
        Endian::Little => bytes,
        Endian::Big => bytes.reverse(),
    }
}

/// The number that bytes stand for on the machine.
pub open spec fn native_value(bytes: Seq<u8>) -> nat {
    le_value(native_order(bytes))
}

/// The `n` bytes of a number on the machine.
pub open spec fn native_bytes(value: nat, n: nat) -> Seq<u8> {
    native_order(le_bytes(value, n))
}

/// Calls `u16::from_ne_bytes`, which makes a number of two bytes in the byte order of the
/// machine: the first is the less significant one exactly if that is little-endian.
#[verifier::external_body]
fn from_ne_bytes(bytes: [u8; 2]) -> (value: u16)
    ensures
        value == match endianness() {
            Endian::Little => bytes[0] + 256 * bytes[1],
            Endian::Big => 256 * bytes[0] + bytes[1],
        },
{
    u16::from_ne_bytes(bytes)
}

/// Whether the machine is little-endian.
fn is_little_endian() -> (yes: bool)
    ensures
        yes == (endianness() == Endian::Little),
{
    from_ne_bytes([1, 0]) == 1
}

/// A signed number of `n` bytes as its two's complement.
pub open spec fn unsigned(value: int, n: nat) -> nat {
    if value < 0 {
        (value + pow(256, n)) as nat
    } else {
        value as nat
    }
}

/// Whether the memory was seen to hold a number of `n` bytes.
pub open spec fn holds<M: Memory + ?Sized>(m: &M, offset: int, value: int, n: nat) -> bool {
    m.may_hold(offset, native_bytes(unsigned(value, n), n))
}

/// Whether the memory was seen to hold a byte that is zero where the flag is off.
pub open spec fn holds_flag<M: Memory + ?Sized>(m: &M, offset: int, flag: bool) -> bool {
    exists|b: u8| #[trigger] holds(m, offset, b as int, 1) && flag == (b != 0)
}

/// Whether the memory was seen to hold a text field of `n` bytes.
pub open spec fn holds_text<M: Memory + ?Sized>(m: &M, offset: int, text: Seq<u8>, n: nat) -> bool {
    text.len() == n && m.may_hold(offset, text)
}

/// Little-endian bytes are those of their number.
proof fn lemma_le_bytes_of_value(bytes: Seq<u8>)
    ensures
        le_bytes(le_value(bytes), bytes.len()) == bytes,
        le_value(bytes) < pow(256, bytes.len()),
    decreases bytes.len(),
{
    reveal(pow);
    if bytes.len() > 0 {
        let rest = bytes.drop_first();
        lemma_le_bytes_of_value(rest);
        let value = le_value(bytes);
        assert(value % 256 == bytes[0] as nat);
        assert(value / 256 == le_value(rest));
        assert(le_bytes(value, bytes.len()) =~= bytes);
    }
}

/// The little-endian bytes of a number, read back, give the number.
proof fn lemma_le_round_trip(value: nat, n: nat)
    requires
        value < pow(256, n),
    ensures
        le_bytes(value, n).len() == n,
        le_value(le_bytes(value, n)) == value,
    decreases n,
{
    reveal(pow);
    if n > 0 {
        assert(value / 256 < pow(256, (n - 1) as nat));
        lemma_le_round_trip(value / 256, (n - 1) as nat);
        assert(le_bytes(value, n).drop_first() =~= le_bytes(value / 256, (n - 1) as nat));
    }
}

/// Bytes put in the order of the machine and back are the same.
proof fn lemma_native_order(bytes: Seq<u8>)
    ensures
        native_order(native_order(bytes)) == bytes,
        native_order(bytes).len() == bytes.len(),
{
    assert(bytes.reverse().reverse() =~= bytes);
}

/// The bytes of a number, read back, give the number.
pub proof fn law_bytes_round_trip(value: nat, n: nat)
    requires
        value < pow(256, n),
    ensures
        native_bytes(value, n).len() == n,
        native_value(native_bytes(value, n)) == value,
{
    lemma_le_round_trip(value, n);
    lemma_native_order(le_bytes(value, n));
}

/// Bytes that stand still hold one number at each place: two that were seen there, both
/// unsigned or both signed numbers of `n` bytes, are equal.
pub proof fn law_still_bytes_hold_one_number(m: &[u8], offset: int, a: int, b: int, n: nat)
    requires
        holds(m, offset, a, n),
        holds(m, offset, b, n),
        (0 <= a < pow(256, n) && 0 <= b < pow(256, n)) || (-pow(256, n) <= 2 * a < pow(256, n)
            && -pow(256, n) <= 2 * b < pow(256, n)),
    ensures
        a == b,
{
    law_bytes_round_trip(unsigned(a, n), n);
    law_bytes_round_trip(unsigned(b, n), n);
}

/// Bytes that stand still show a flag one way only.
pub proof fn law_still_bytes_hold_one_flag(m: &[u8], offset: int, a: bool, b: bool)
    requires
        holds_flag(m, offset, a),
        holds_flag(m, offset, b),
    ensures
        a == b,
{
    let x = choose|x: u8| #[trigger] holds(m, offset, x as int, 1) && a == (x != 0);
    let y = choose|y: u8| #[trigger] holds(m, offset, y as int, 1) && b == (y != 0);
    lemma_powers();
    law_still_bytes_hold_one_number(m, offset, x as int, y as int, 1);
}

/// Powers of 256, as numbers.
pub proof fn lemma_powers()
    ensures
        pow(256, 1) == 0x100,
        pow(256, 2) == 0x1_0000,
        pow(256, 4) == 0x1_0000_0000,
        pow(256, 8) == 0x1_0000_0000_0000_0000,
{
    reveal_with_fuel(pow, 9);
}

/// Whether a span lies inside a memory of the given size.
pub fn is_inside(size: usize, offset: usize, length: usize) -> (inside: bool)
    ensures
        inside == (offset + length <= size),
{
    offset <= size && length <= size - offset
}

/// Reads bytes, or reports that they are not all inside the memory.
pub fn read_bytes<M: Memory + ?Sized>(m: &M, offset: usize, length: usize) -> (read: Result<
    Vec<u8>,
    Error,
>)
    ensures
        match read {
            Ok(bytes) => offset + length <= m.size() && holds_text(
                m,
                offset as int,
                bytes@,
                length as nat,
            ),
            Err(error) => offset + length > m.size() && error@ == out_of_bounds(
                m,
                offset as int,
                length as int,
            ),
        },
{
    let size: usize = m.mapping_size();
    if !is_inside(size, offset, length) {
        return Err(
            Error::OutOfBounds { name: m.name(), offset, value_size: length, mapping_size: size },
        );
    }
    Ok(m.fetch(offset, length))
}

/// The number that bytes stand for on the machine.
pub fn number_of(bytes: &Vec<u8>) -> (value: u64)
    requires
        bytes@.len() <= 8,
    ensures
        value == native_value(bytes@),
        value < pow(256, bytes@.len()),
        native_bytes(value as nat, bytes@.len()) == bytes@,
{
    let n: usize = bytes.len();
    let little: bool = is_little_endian();
    let ghost ordered = native_order(bytes@);
    let mut value: u64 = 0;
    let mut i: usize = n;
    proof {
        lemma_native_order(bytes@);
        assert(ordered.skip(n as int) =~= seq![]);
    }
    while i > 0
        invariant
            i <= n <= 8,
            n == bytes@.len(),
            little == (endianness() == Endian::Little),
            ordered == native_order(bytes@),
            ordered.len() == n,
            value == le_value(ordered.skip(i as int)),
        decreases i,
    {
        proof {
            lemma_le_bytes_of_value(ordered.skip(i as int));
            lemma_pow_increases(256, (n - i) as nat, 7);
            assert(pow(256, 7) == 0x100_0000_0000_0000) by {
                reveal_with_fuel(pow, 8);
            }
            assert(ordered.skip(i - 1).drop_first() =~= ordered.skip(i as int));
        }
        i -= 1;
        let at: usize = if little {
            i
        } else {
            n - 1 - i
        };
        value = value * 256 + bytes[at] as u64;
    }
    proof {
        assert(ordered.skip(0) =~= ordered);
        lemma_le_bytes_of_value(ordered);
    }
    value
}

/// Reads an unsigned number of `n` bytes.
fn read_number<M: Memory + ?Sized>(m: &M, offset: usize, n: usize) -> (read: Result<u64, Error>)
    requires
        n <= 8,
    ensures
        match read {
            Ok(value) => offset + n <= m.size() && value < pow(256, n as nat) && holds(
                m,
                offset as int,
                value as int,
                n as nat,
            ),
            Err(error) => offset + n > m.size() && error@ == out_of_bounds(
                m,
                offset as int,
                n as int,
            ),
        },
{
    let bytes: Vec<u8> = read_bytes(m, offset, n)?;
    Ok(number_of(&bytes))
}

/// Reads a `u8`.
pub fn read_u8<M: Memory + ?Sized>(m: &M, offset: usize) -> (read: Result<u8, Error>)
    ensures
        match read {
            Ok(value) => offset + 1 <= m.size() && holds(m, offset as int, value as int, 1),
            Err(error) => offset + 1 > m.size() && error@ == out_of_bounds(m, offset as int, 1),
        },
{
    let value: u64 = read_number(m, offset, 1)?;
    proof {
        lemma_powers();
    }
    Ok(value as u8)
}

/// Reads a byte that is zero where a flag is off.
pub fn read_flag<M: Memory + ?Sized>(m: &M, offset: usize) -> (read: Result<bool, Error>)
    ensures
        match read {
            Ok(flag) => offset + 1 <= m.size() && holds_flag(m, offset as int, flag),
            Err(error) => offset + 1 > m.size() && error@ == out_of_bounds(m, offset as int, 1),
        },
{
    let value: u8 = read_u8(m, offset)?;
    Ok(value != 0)
}

/// Reads an `i16`.
pub fn read_i16<M: Memory + ?Sized>(m: &M, offset: usize) -> (read: Result<i16, Error>)
    ensures
        match read {
            Ok(value) => offset + 2 <= m.size() && holds(m, offset as int, value as int, 2),
            Err(error) => offset + 2 > m.size() && error@ == out_of_bounds(m, offset as int, 2),
        },
{
    let value: u64 = read_number(m, offset, 2)?;
    proof {
        lemma_powers();
    }
    if value < 0x8000 {
        Ok(value as i16)
    } else {
        Ok((value as i64 - 0x1_0000) as i16)
    }
}

/// Reads a `u32`.
pub fn read_u32<M: Memory + ?Sized>(m: &M, offset: usize) -> (read: Result<u32, Error>)
    ensures
        match read {
            Ok(value) => offset + 4 <= m.size() && holds(m, offset as int, value as int, 4),
            Err(error) => offset + 4 > m.size() && error@ == out_of_bounds(m, offset as int, 4),
        },
{
    let value: u64 = read_number(m, offset, 4)?;
    proof {
        lemma_powers();
    }
    Ok(value as u32)
}

/// Reads an `i32`.
pub fn read_i32<M: Memory + ?Sized>(m: &M, offset: usize) -> (read: Result<i32, Error>)
    ensures
        match read {
            Ok(value) => offset + 4 <= m.size() && holds(m, offset as int, value as int, 4),
            Err(error) => offset + 4 > m.size() && error@ == out_of_bounds(m, offset as int, 4),
        },
{
    let value: u64 = read_number(m, offset, 4)?;
    proof {
        lemma_powers();
    }
    if value < 0x8000_0000 {
        Ok(value as i32)
    } else {
        Ok((value as i64 - 0x1_0000_0000) as i32)
    }
}

/// Reads a `u64`.
pub fn read_u64<M: Memory + ?Sized>(m: &M, offset: usize) -> (read: Result<u64, Error>)
    ensures
        match read {
            Ok(value) => offset + 8 <= m.size() && holds(m, offset as int, value as int, 8),
            Err(error) => offset + 8 > m.size() && error@ == out_of_bounds(m, offset as int, 8),
        },
{
    read_number(m, offset, 8)
}

/// Reads a double.
pub fn read_double<M: Memory + ?Sized>(m: &M, offset: usize) -> (read: Result<Double, Error>)
    ensures
        match read {
            Ok(value) => offset + 8 <= m.size() && holds(m, offset as int, value.bits as int, 8),
            Err(error) => offset + 8 > m.size() && error@ == out_of_bounds(m, offset as int, 8),
        },
{
    let value: u64 = read_number(m, offset, 8)?;
    Ok(Double::from_bits(value))
}

/// Spans are read without an error exactly if each lies inside the memory; otherwise the
/// error names the first that does not, with its offset, its length and the memory's name
/// and size.
pub proof fn law_first_span_outside<M: Memory + ?Sized>(m: &M, spans: Seq<(int, int)>, from: int)
    requires
        0 <= from <= spans.len(),
    ensures
        match spans_error(m, spans, from) {
            None => forall|k: int|
                from <= k < spans.len() ==> (#[trigger] spans[k]).0 + spans[k].1 <= m.size(),
            Some(error) => exists|k: int|
                {
                    &&& from <= k < spans.len()
                    &&& (#[trigger] spans[k]).0 + spans[k].1 > m.size()
                    &&& forall|j: int|
                        from <= j < k ==> (#[trigger] spans[j]).0 + spans[j].1 <= m.size()
                    &&& error == (ErrorView::OutOfBounds {
                        name: m.mapping_name(),
                        offset: spans[k].0 as usize,
                        value_size: spans[k].1 as usize,
                        mapping_size: m.size() as usize,
                    })
                },
        },
    decreases spans.len() - from,
{
    if from < spans.len() {
        if spans[from].0 + spans[from].1 <= m.size() {
            law_first_span_outside(m, spans, from + 1);
        }
    }
}

/// A further byte behind little-endian ones counts the next power of 256.
pub proof fn law_bytes_count_powers(bytes: Seq<u8>, last: u8)
    ensures
        le_value(bytes.push(last)) == le_value(bytes) + last * pow(256, bytes.len()),
    decreases bytes.len(),
{
    reveal(pow);
    let all = bytes.push(last);
    if bytes.len() > 0 {
        law_bytes_count_powers(bytes.drop_first(), last);
        assert(all.drop_first() =~= bytes.drop_first().push(last));
        let p = pow(256, (bytes.len() - 1) as nat);
        assert(256 * (last * p) == last * (256 * p)) by (nonlinear_arith);
        assert(pow(256, bytes.len()) == 256 * p);
        assert(all[0] == bytes[0]);
        assert(le_value(all) == all[0] as nat + 256 * le_value(all.drop_first()));
    } else {
        assert(all.drop_first() =~= seq![]);
        assert(pow(256, 0) == 1);
        assert(last * 1 == last as int) by (nonlinear_arith);
        assert(le_value(all.drop_first()) == 0);
    }
}

/// A slice shows the bytes that it has, at each place and at every time.
pub proof fn law_slice_shows_its_bytes(m: &[u8], offset: int, bytes: Seq<u8>)
    requires
        0 <= offset,
        offset + bytes.len() <= m@.len(),
    ensures
        m.may_hold(offset, bytes) <==> forall|i: int|
            0 <= i < bytes.len() ==> #[trigger] bytes[i] == m@[offset + i],
        m.size() == m@.len(),
        m.mapping_name() == MAPPING_NAME@,
{
    let part = m@.subrange(offset, offset + bytes.len());
    if forall|i: int| 0 <= i < bytes.len() ==> #[trigger] bytes[i] == m@[offset + i] {
        assert(bytes =~= part);
    }
    if bytes == part {
        assert forall|i: int| 0 <= i < bytes.len() implies #[trigger] bytes[i] == m@[offset + i] by {
            assert(part[i] == m@[offset + i]);
        }
    }
}

/// A number that a slice holds is the one that its bytes stand for in the byte order of the
/// machine, as it is or in two's complement.
pub proof fn law_slice_holds_a_number(m: &[u8], offset: int, value: int, n: nat)
    requires
        0 <= offset,
        offset + n <= m@.len(),
        holds(m, offset, value, n),
        -pow(256, n) <= 2 * value && value < pow(256, n),
    ensures
        ({
            let bytes = m@.subrange(offset, offset + n);
            let found = match endianness() {
                Endian::Little => le_value(bytes),
                Endian::Big => le_value(bytes.reverse()),
            };
            found == value || found == value + pow(256, n)
        }),
        value >= 0 ==> native_value(m@.subrange(offset, offset + n)) == value,
{
    lemma_pow_positive(256, n);
    law_bytes_round_trip(unsigned(value, n), n);
}

/// A flag that a slice holds is set exactly if its byte is not zero.
pub proof fn law_slice_holds_a_flag(m: &[u8], offset: int, flag: bool)
    requires
        0 <= offset < m@.len(),
        holds_flag(m, offset, flag),
    ensures
        flag == (m@[offset] != 0),
{
    let b = choose|b: u8| #[trigger] holds(m, offset, b as int, 1) && flag == (b != 0);
    lemma_powers();
    law_slice_holds_a_number(m, offset, b as int, 1);
    let bytes = m@.subrange(offset, offset + 1);
    assert(bytes.reverse() =~= bytes);
    assert(bytes[0] == m@[offset]);
    assert(bytes.drop_first() =~= seq![]);
    assert(le_value(bytes.drop_first()) == 0);
    assert(le_value(bytes) == bytes[0] as nat);
}

} // verus!
