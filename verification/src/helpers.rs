//! Little-endian readers and the small grammar pieces shared by the lump parsers.
//!
//! Every parser takes the remaining input and, on success, returns how many
//! bytes it consumed together with the value it read.  Failure is either
//! `Incomplete` (the input ended before the grammar could decide) or `Error`
//! (the input cannot match).
use vstd::prelude::*;
use vstd::utf8::{decode_utf8, valid_utf8};
use crate::entity::DecimalText;

verus! {

/// Why a parser did not produce a value.
#[derive(Debug, PartialEq, Eq, Clone, Copy)]
pub enum ParseError {
    /// The input ended before the parser could decide.
    Incomplete,
    /// The input does not match the grammar.
    Error,
}

/// A parse outcome: the number of bytes consumed and the value read.
pub type Parsed<T> = Result<(usize, T), ParseError>;

/// The mathematical counterpart of [`Parsed`].
pub type SpecParsed<V> = Result<(int, V), ParseError>;

/// The view of a parse outcome.
pub open spec fn parsed_view<T: View>(r: Parsed<T>) -> SpecParsed<T::V> {
    match r {
        Ok((n, v)) => Ok((n as int, v@)),
        Err(e) => Err(e),
    }
}

/// A parse outcome with the consumed count as an integer and the value as is.
pub open spec fn plain<T>(r: Parsed<T>) -> SpecParsed<T> {
    match r {
        Ok((n, v)) => Ok((n as int, v)),
        Err(e) => Err(e),
    }
}

/// Little-endian unsigned 32-bit value of the four bytes at `off`.
pub open spec fn le_u32_at(s: Seq<u8>, off: int) -> u32 {
    (s[off] + s[off + 1] * 256 + s[off + 2] * 65536 + s[off + 3] * 16777216) as u32
}

/// Little-endian signed 32-bit value (two's complement) of the four bytes at `off`.
pub open spec fn le_i32_at(s: Seq<u8>, off: int) -> i32 {
    le_u32_at(s, off) as i32
}

/// Reads the little-endian `u32` at `off`.
pub fn read_u32_at(i: &[u8], off: usize) -> (r: u32)
    requires
        off + 4 <= i@.len(),
    ensures
        r == le_u32_at(i@, off as int),
{
    let b0 = i[off] as u32;
    let b1 = i[off + 1] as u32;
    let b2 = i[off + 2] as u32;
    let b3 = i[off + 3] as u32;
    b0 + b1 * 256 + b2 * 65536 + b3 * 16777216
}

/// Reads the little-endian `i32` at `off`.
pub fn read_i32_at(i: &[u8], off: usize) -> (r: i32)
    requires
        off + 4 <= i@.len(),
    ensures
        r == le_i32_at(i@, off as int),
{
    read_u32_at(i, off) as i32
}

/// Reads three consecutive little-endian `i32` values starting at `off`.
pub fn read_ivec3_at(i: &[u8], off: usize) -> (r: IVec3)
    requires
        off + 12 <= i@.len(),
    ensures
        r == ivec3_at(i@, off as int),
{
    let _len = i.len();
    let a = read_i32_at(i, off);
    let b = read_i32_at(i, off + 4);
    let c = read_i32_at(i, off + 8);
    [a, b, c]
}

/// Reads two consecutive little-endian `i32` values starting at `off`.
pub fn read_ivec2_at(i: &[u8], off: usize) -> (r: IVec2)
    requires
        off + 8 <= i@.len(),
    ensures
        r == ivec2_at(i@, off as int),
{
    let _len = i.len();
    let a = read_i32_at(i, off);
    let b = read_i32_at(i, off + 4);
    [a, b]
}

/// Reads three consecutive 32-bit float bit patterns starting at `off`.
pub fn read_vec3_at(i: &[u8], off: usize) -> (r: Vec3)
    requires
        off + 12 <= i@.len(),
    ensures
        r == vec3_at(i@, off as int),
{
    let _len = i.len();
    let a = read_u32_at(i, off);
    let b = read_u32_at(i, off + 4);
    let c = read_u32_at(i, off + 8);
    [a, b, c]
}

/// Reads two consecutive 32-bit float bit patterns starting at `off`.
pub fn read_vec2_at(i: &[u8], off: usize) -> (r: Vec2)
    requires
        off + 8 <= i@.len(),
    ensures
        r == vec2_at(i@, off as int),
{
    let _len = i.len();
    let a = read_u32_at(i, off);
    let b = read_u32_at(i, off + 4);
    [a, b]
}

/// A vector of three 32-bit floats, each held as its IEEE-754 bit pattern.
pub type Vec3 = [u32; 3];

/// A vector of two 32-bit floats, each held as its IEEE-754 bit pattern.
pub type Vec2 = [u32; 2];

/// A vector of three signed integers.
pub type IVec3 = [i32; 3];

/// A vector of two signed integers.
pub type IVec2 = [i32; 2];

/// A colour of three bytes.
pub type Rgb = [u8; 3];

/// A colour of four bytes.
pub type Rgba = [u8; 4];

pub open spec fn ivec3_at(s: Seq<u8>, off: int) -> IVec3 {
    [le_i32_at(s, off), le_i32_at(s, off + 4), le_i32_at(s, off + 8)]
}

pub open spec fn ivec2_at(s: Seq<u8>, off: int) -> IVec2 {
    [le_i32_at(s, off), le_i32_at(s, off + 4)]
}

pub open spec fn vec3_at(s: Seq<u8>, off: int) -> Vec3 {
    [le_u32_at(s, off), le_u32_at(s, off + 4), le_u32_at(s, off + 8)]
}

pub open spec fn vec2_at(s: Seq<u8>, off: int) -> Vec2 {
    [le_u32_at(s, off), le_u32_at(s, off + 4)]
}

/// A fixed-width reader: `Incomplete` when fewer than `width` bytes remain,
/// else the value read and `width` bytes consumed.
pub open spec fn fixed<V>(s: Seq<u8>, width: int, v: V) -> SpecParsed<V> {
    if s.len() < width {
        Err(ParseError::Incomplete)
    } else {
        Ok((width, v))
    }
}

/// Recognizes a little-endian unsigned 8-bit integer.
pub fn le_u8(i: &[u8]) -> (r: Parsed<u8>)
    ensures
        r == (if i@.len() < 1 { Err(ParseError::Incomplete) } else { Ok((1usize, i@[0])) }),
{
    if i.len() < 1 {
        Err(ParseError::Incomplete)
    } else {
        Ok((1, i[0]))
    }
}

/// Recognizes a little-endian unsigned 32-bit integer.
pub fn le_u32(i: &[u8]) -> (r: Parsed<u32>)
    ensures
        plain(r) == fixed(i@, 4, le_u32_at(i@, 0)),
{
    if i.len() < 4 {
        Err(ParseError::Incomplete)
    } else {
        Ok((4, read_u32_at(i, 0)))
    }
}

/// Recognizes a little-endian signed 32-bit integer.
pub fn le_i32(i: &[u8]) -> (r: Parsed<i32>)
    ensures
        plain(r) == fixed(i@, 4, le_i32_at(i@, 0)),
{
    if i.len() < 4 {
        Err(ParseError::Incomplete)
    } else {
        Ok((4, read_i32_at(i, 0)))
    }
}

/// Recognizes a little-endian 32-bit float; the value is its bit pattern.
pub fn le_f32(i: &[u8]) -> (r: Parsed<u32>)
    ensures
        plain(r) == fixed(i@, 4, le_u32_at(i@, 0)),
{
    le_u32(i)
}

/// Recognizes three little-endian 32-bit floats (as bit patterns).
pub fn parse_vec3(i: &[u8]) -> (r: Parsed<Vec3>)
    ensures
        plain(r) == fixed(i@, 12, vec3_at(i@, 0)),
{
    if i.len() < 12 {
        Err(ParseError::Incomplete)
    } else {
        Ok((12, read_vec3_at(i, 0)))
    }
}

/// Recognizes two little-endian 32-bit floats (as bit patterns).
pub fn parse_vec2(i: &[u8]) -> (r: Parsed<Vec2>)
    ensures
        plain(r) == fixed(i@, 8, vec2_at(i@, 0)),
{
    if i.len() < 8 {
        Err(ParseError::Incomplete)
    } else {
        Ok((8, read_vec2_at(i, 0)))
    }
}

/// Recognizes three little-endian signed 32-bit integers.
pub fn parse_ivec3(i: &[u8]) -> (r: Parsed<IVec3>)
    ensures
        plain(r) == fixed(i@, 12, ivec3_at(i@, 0)),
{
    if i.len() < 12 {
        Err(ParseError::Incomplete)
    } else {
        Ok((12, read_ivec3_at(i, 0)))
    }
}

/// Recognizes two little-endian signed 32-bit integers.
pub fn parse_ivec2(i: &[u8]) -> (r: Parsed<IVec2>)
    ensures
        plain(r) == fixed(i@, 8, ivec2_at(i@, 0)),
{
    if i.len() < 8 {
        Err(ParseError::Incomplete)
    } else {
        Ok((8, read_ivec2_at(i, 0)))
    }
}

/// `std::string::String::from_utf8`, with the error dropped: the bytes as a
/// string when they are valid UTF-8, else nothing.  The contract restates the
/// documented behaviour over vstd's definition of UTF-8.
#[verifier::external_body]
pub fn string_from_utf8(bytes: Vec<u8>) -> (r: Option<String>)
    ensures
        r is Some <==> valid_utf8(bytes@),
        r matches Some(s) ==> s@ == decode_utf8(bytes@),
{
    String::from_utf8(bytes).ok()
}

/// The index of the first zero byte of `s` at or after `i`, or `s.len()`.
pub open spec fn nul_end(s: Seq<u8>, i: int) -> int
    decreases s.len() - i,
{
    if i < 0 || i >= s.len() || s[i] == 0 {
        i
    } else {
        nul_end(s, i + 1)
    }
}

/// The bytes of `s` before its first zero byte.
pub open spec fn nul_prefix(s: Seq<u8>) -> Seq<u8> {
    s.take(nul_end(s, 0))
}

pub proof fn lemma_nul_end_bounds(s: Seq<u8>, i: int)
    requires
        0 <= i <= s.len(),
    ensures
        i <= nul_end(s, i) <= s.len(),
        forall|j: int| i <= j < nul_end(s, i) ==> s[j] != 0,
        nul_end(s, i) < s.len() ==> s[nul_end(s, i)] == 0,
    decreases s.len() - i,
{
    if i < s.len() && s[i] != 0 {
        lemma_nul_end_bounds(s, i + 1);
    }
}

/// The text of a byte string cut at its first zero byte, when that text is UTF-8.
pub open spec fn spec_text(b: Seq<u8>) -> Option<Seq<char>> {
    if valid_utf8(nul_prefix(b)) {
        Some(decode_utf8(nul_prefix(b)))
    } else {
        None
    }
}

/// Copies the bytes of `i[start..end]` that come before the first zero byte.
pub fn bytes_before_nul(i: &[u8], start: usize, end: usize) -> (r: Vec<u8>)
    requires
        start <= end <= i@.len(),
    ensures
        r@ == nul_prefix(i@.subrange(start as int, end as int)),
{
    let ghost s = i@.subrange(start as int, end as int);
    proof {
        lemma_nul_end_bounds(s, 0);
    }
    let mut out: Vec<u8> = Vec::new();
    let mut k = start;
    while k < end && i[k] != 0
        invariant
            start <= k <= end,
            end <= i@.len(),
            s == i@.subrange(start as int, end as int),
            nul_end(s, 0) == nul_end(s, k - start),
            out@ == s.take(k - start),
        decreases end - k,
    {
        out.push(i[k]);
        k = k + 1;
        assert(out@ =~= s.take(k - start));
    }
    proof {
        assert(nul_end(s, k - start) == k - start);
    }
    out
}

/// A fixed-width text field: `n` bytes, read as UTF-8 up to the first zero byte.
pub open spec fn spec_take_s(s: Seq<u8>, n: int) -> SpecParsed<Seq<char>> {
    if s.len() < n {
        Err(ParseError::Incomplete)
    } else {
        match spec_text(s.take(n)) {
            Some(t) => Ok((n, t)),
            None => Err(ParseError::Error),
        }
    }
}

/// Reads a fixed-width text field of `n` bytes.
pub fn take_s(i: &[u8], n: usize) -> (r: Parsed<String>)
    ensures
        parsed_view(r) == spec_take_s(i@, n as int),
{
    if i.len() < n {
        Err(ParseError::Incomplete)
    } else {
        let b = bytes_before_nul(i, 0, n);
        assert(i@.subrange(0, n as int) == i@.take(n as int));
        match string_from_utf8(b) {
            Some(t) => Ok((n, t)),
            None => Err(ParseError::Error),
        }
    }
}

/// A record type of the file: something with a grammar of its own.
pub trait Record: Sized + View {
    /// What parsing a record from the start of `s` gives.
    spec fn spec_parse(s: Seq<u8>) -> SpecParsed<Self::V>;

    /// A successful parse consumes at least one byte and no more than there are.
    proof fn lemma_parse_consumes(s: Seq<u8>)
        ensures
            Self::spec_parse(s) matches Ok((n, _)) ==> 0 < n <= s.len(),
    ;

    /// Parses one record from the start of `i`.
    fn parse(i: &[u8]) -> (r: Parsed<Self>)
        ensures
            parsed_view(r) == Self::spec_parse(i@),
    ;
}

/// The views of the elements of a vector.
pub open spec fn views<T: View>(v: Seq<T>) -> Seq<T::V> {
    v.map_values(|x: T| x@)
}

/// The view of an outcome that carries a vector of records.
pub open spec fn parsed_views<T: View>(r: Parsed<Vec<T>>) -> SpecParsed<Seq<T::V>> {
    match r {
        Ok((n, v)) => Ok((n as int, views(v@))),
        Err(e) => Err(e),
    }
}

pub proof fn lemma_views_push<T: View>(v: Seq<T>, x: T)
    ensures
        views(v.push(x)) == views(v).push(x@),
{
    assert(views(v.push(x)) =~= views(v).push(x@));
}

/// The bytes of `i` after the first `n`.
pub fn skip(i: &[u8], n: usize) -> (r: &[u8])
    requires
        n <= i@.len(),
    ensures
        r@ == i@.skip(n as int),
{
    let r = &i[n..i.len()];
    assert(r@ =~= i@.skip(n as int));
    r
}

/// Exactly `n` records, one after the other.
pub open spec fn spec_parse_vec<T: Record>(s: Seq<u8>, n: nat) -> SpecParsed<Seq<T::V>>
    decreases n,
{
    if n == 0 {
        Ok((0, seq![]))
    } else {
        match spec_parse_vec::<T>(s, (n - 1) as nat) {
            Err(e) => Err(e),
            Ok((m, vs)) => match T::spec_parse(s.skip(m)) {
                Err(e) => Err(e),
                Ok((k, v)) => Ok((m + k, vs.push(v))),
            },
        }
    }
}

pub proof fn lemma_parse_vec_bounds<T: Record>(s: Seq<u8>, n: nat)
    ensures
        spec_parse_vec::<T>(s, n) matches Ok((m, vs)) ==> 0 <= m <= s.len() && vs.len() == n,
    decreases n,
{
    if n > 0 {
        lemma_parse_vec_bounds::<T>(s, (n - 1) as nat);
        if let Ok((m, vs)) = spec_parse_vec::<T>(s, (n - 1) as nat) {
            T::lemma_parse_consumes(s.skip(m));
        }
    }
}

/// Once reading the first records fails, reading more fails the same way.
pub proof fn lemma_parse_vec_error_persists<T: Record>(s: Seq<u8>, i: nat, n: nat)
    requires
        i <= n,
        spec_parse_vec::<T>(s, i) is Err,
    ensures
        spec_parse_vec::<T>(s, n) == spec_parse_vec::<T>(s, i),
    decreases n - i,
{
    if i < n {
        lemma_parse_vec_error_persists::<T>(s, i, (n - 1) as nat);
    }
}

/// Parses exactly `count` records one after the other from the start of `input`.
pub fn parse_vec<T: Record>(input: &[u8], count: usize) -> (r: Parsed<Vec<T>>)
    ensures
        parsed_views(r) == spec_parse_vec::<T>(input@, count as nat),
{
    let mut output: Vec<T> = Vec::new();
    let mut consumed: usize = 0;
    let mut i: usize = 0;
    assert(views(output@) =~= Seq::<T::V>::empty());
    while i < count
        invariant
            i <= count,
            consumed <= input@.len(),
            spec_parse_vec::<T>(input@, i as nat) == Ok::<(int, Seq<T::V>), ParseError>((consumed as int, views(output@))),
        decreases count - i,
    {
        let bytes = &input[consumed..input.len()];
        assert(bytes@ =~= input@.skip(consumed as int));
        match T::parse(bytes) {
            Err(e) => {
                proof {
                    lemma_parse_vec_error_persists::<T>(input@, (i + 1) as nat, count as nat);
                }
                return Err(e);
            },
            Ok((k, v)) => {
                proof {
                    T::lemma_parse_consumes(bytes@);
                    lemma_views_push(output@, v);
                }
                output.push(v);
                consumed = consumed + k;
                i = i + 1;
            },
        }
    }
    Ok((consumed, output))
}

/// Records one after the other until the input is used up.
pub open spec fn spec_consume<T: Record>(s: Seq<u8>) -> SpecParsed<Seq<T::V>>
    decreases s.len(),
{
    if s.len() == 0 {
        Ok((0, seq![]))
    } else {
        match T::spec_parse(s) {
            Err(e) => Err(e),
            Ok((k, v)) => if 0 < k <= s.len() {
                match spec_consume::<T>(s.skip(k)) {
                    Ok((m, vs)) => Ok((k + m, seq![v] + vs)),
                    Err(e) => Err(e),
                }
            } else {
                Err(ParseError::Error)
            },
        }
    }
}

/// The outcome `r` of the rest of a sequence, after `c` bytes that gave `vs`.
pub open spec fn after<V>(vs: Seq<V>, c: int, r: SpecParsed<Seq<V>>) -> SpecParsed<Seq<V>> {
    match r {
        Ok((m, ws)) => Ok((c + m, vs + ws)),
        Err(e) => Err(e),
    }
}

/// Parses records one after the other until `input` is used up.
pub fn consume_to_vec<T: Record>(input: &[u8]) -> (r: Parsed<Vec<T>>)
    ensures
        parsed_views(r) == spec_consume::<T>(input@),
{
    let mut output: Vec<T> = Vec::new();
    let mut consumed: usize = 0;
    proof {
        assert(input@.skip(0) =~= input@);
        assert(views(output@) =~= Seq::<T::V>::empty());
        match spec_consume::<T>(input@) {
            Ok((m, ws)) => {
                assert(views(output@) + ws =~= ws);
            },
            Err(_) => {},
        }
    }
    while consumed < input.len()
        invariant
            consumed <= input@.len(),
            spec_consume::<T>(input@) == after(views(output@), consumed as int, spec_consume::<T>(input@.skip(consumed as int))),
        decreases input@.len() - consumed,
    {
        let bytes = &input[consumed..input.len()];
        assert(bytes@ =~= input@.skip(consumed as int));
        proof {
            T::lemma_parse_consumes(bytes@);
        }
        match T::parse(bytes) {
            Err(e) => {
                return Err(e);
            },
            Ok((k, v)) => {
                proof {
                    lemma_views_push(output@, v);
                    assert(bytes@.skip(k as int) =~= input@.skip(consumed + k));
                    assert(views(output@).push(v@) =~= views(output@) + seq![v@]);
                    match spec_consume::<T>(input@.skip(consumed + k)) {
                        Ok((m, ws)) => {
                            assert(views(output@) + (seq![v@] + ws) =~= views(output@).push(v@) + ws);
                        },
                        Err(_) => {},
                    }
                }
                output.push(v);
                consumed = consumed + k;
            },
        }
    }
    proof {
        assert(input@.skip(consumed as int).len() == 0);
        assert(views(output@) + seq![] =~= views(output@));
    }
    Ok((consumed, output))
}

/// The repetition after the first record: records until the input ends, a
/// record fails to match, or a record consumes nothing.  Running out of input
/// inside a record makes the whole repetition incomplete.
pub open spec fn spec_many_tail<T: Record>(s: Seq<u8>) -> SpecParsed<Seq<T::V>>
    decreases s.len(),
{
    if s.len() == 0 {
        Ok((0, seq![]))
    } else {
        match T::spec_parse(s) {
            Err(ParseError::Error) => Ok((0, seq![])),
            Err(ParseError::Incomplete) => Err(ParseError::Incomplete),
            Ok((k, v)) => if 0 < k <= s.len() {
                after(seq![v], k, spec_many_tail::<T>(s.skip(k)))
            } else {
                Ok((0, seq![]))
            },
        }
    }
}

/// One or more records.
pub open spec fn spec_many1<T: Record>(s: Seq<u8>) -> SpecParsed<Seq<T::V>> {
    match T::spec_parse(s) {
        Err(e) => Err(e),
        Ok((k, v)) => after(seq![v], k, spec_many_tail::<T>(s.skip(k))),
    }
}

/// Parses one or more records from the start of `input`.
pub fn many1<T: Record>(input: &[u8]) -> (r: Parsed<Vec<T>>)
    ensures
        parsed_views(r) == spec_many1::<T>(input@),
{
    let (k0, v0) = match T::parse(input) {
        Err(e) => return Err(e),
        Ok(p) => p,
    };
    proof {
        T::lemma_parse_consumes(input@);
    }
    let mut output: Vec<T> = Vec::new();
    proof {
        lemma_views_push(output@, v0);
        assert(views(output@).push(v0@) =~= seq![v0@]);
    }
    output.push(v0);
    let mut consumed: usize = k0;
    loop
        invariant
            consumed <= input@.len(),
            spec_many1::<T>(input@) == after(views(output@), consumed as int, spec_many_tail::<T>(input@.skip(consumed as int))),
        decreases input@.len() - consumed,
    {
        if consumed == input.len() {
            proof {
                assert(input@.skip(consumed as int).len() == 0);
                assert(views(output@) + seq![] =~= views(output@));
            }
            return Ok((consumed, output));
        }
        let bytes = &input[consumed..input.len()];
        assert(bytes@ =~= input@.skip(consumed as int));
        proof {
            T::lemma_parse_consumes(bytes@);
        }
        match T::parse(bytes) {
            Err(ParseError::Error) => {
                proof {
                    assert(views(output@) + seq![] =~= views(output@));
                }
                return Ok((consumed, output));
            },
            Err(ParseError::Incomplete) => {
                return Err(ParseError::Incomplete);
            },
            Ok((k, v)) => {
                proof {
                    lemma_views_push(output@, v);
                    assert(bytes@.skip(k as int) =~= input@.skip(consumed + k));
                    match spec_many_tail::<T>(input@.skip(consumed + k)) {
                        Ok((m, ws)) => {
                            assert(views(output@) + (seq![v@] + ws) =~= views(output@).push(v@) + ws);
                        },
                        Err(_) => {},
                    }
                }
                output.push(v);
                consumed = consumed + k;
            },
        }
    }
}

// ---------------------------------------------------------------------------
// Text pieces of the entity lump.

/// Bytes read as Latin-1 characters that are whitespace or control
/// characters: 0x00 to 0x20 and 0x7F to 0xA0.
pub open spec fn spec_is_whitespace(b: u8) -> bool {
    b <= 0x20 || (0x7f <= b && b <= 0xa0)
}

/// A decimal digit.
pub open spec fn spec_is_dec(b: u8) -> bool {
    0x30 <= b && b <= 0x39
}

/// Whether a byte, read as a Latin-1 character, is whitespace or a control character.
pub fn treat_as_whitespace(i: u8) -> (r: bool)
    ensures
        r == spec_is_whitespace(i),
{
    i <= 0x20 || (0x7f <= i && i <= 0xa0)
}

fn is_dec(a: u8) -> (r: bool)
    ensures
        r == spec_is_dec(a),
{
    0x30 <= a && a <= 0x39
}

/// The end of the run of whitespace that starts at `i`.
pub open spec fn ws_end(s: Seq<u8>, i: int) -> int
    decreases s.len() - i,
{
    if i < 0 || i >= s.len() || !spec_is_whitespace(s[i]) {
        i
    } else {
        ws_end(s, i + 1)
    }
}

/// The end of the run of digits that starts at `i`.
pub open spec fn dec_end(s: Seq<u8>, i: int) -> int
    decreases s.len() - i,
{
    if i < 0 || i >= s.len() || !spec_is_dec(s[i]) {
        i
    } else {
        dec_end(s, i + 1)
    }
}

pub proof fn lemma_ws_end(s: Seq<u8>, i: int)
    requires
        0 <= i <= s.len(),
    ensures
        i <= ws_end(s, i) <= s.len(),
        forall|j: int| i <= j < ws_end(s, i) ==> spec_is_whitespace(#[trigger] s[j]),
        ws_end(s, i) < s.len() ==> !spec_is_whitespace(s[ws_end(s, i)]),
    decreases s.len() - i,
{
    if i < s.len() && spec_is_whitespace(s[i]) {
        lemma_ws_end(s, i + 1);
    }
}

pub proof fn lemma_dec_end(s: Seq<u8>, i: int)
    requires
        0 <= i <= s.len(),
    ensures
        i <= dec_end(s, i) <= s.len(),
        forall|j: int| i <= j < dec_end(s, i) ==> spec_is_dec(#[trigger] s[j]),
        dec_end(s, i) < s.len() ==> !spec_is_dec(s[dec_end(s, i)]),
    decreases s.len() - i,
{
    if i < s.len() && spec_is_dec(s[i]) {
        lemma_dec_end(s, i + 1);
    }
}

/// Runs start where they are looked for, whatever comes before.
pub proof fn lemma_ws_end_skip(s: Seq<u8>, k: int, i: int)
    requires
        0 <= k <= s.len(),
        0 <= i <= s.len() - k,
    ensures
        ws_end(s.skip(k), i) == ws_end(s, k + i) - k,
    decreases s.len() - k - i,
{
    if i < s.len() - k && spec_is_whitespace(s[k + i]) {
        lemma_ws_end_skip(s, k, i + 1);
    }
}

/// The length of the run of whitespace at the start of `i`.
pub fn whitespace(i: &[u8]) -> (n: usize)
    ensures
        n == ws_end(i@, 0),
{
    let mut k: usize = 0;
    while k < i.len() && treat_as_whitespace(i[k])
        invariant
            k <= i@.len(),
            ws_end(i@, 0) == ws_end(i@, k as int),
        decreases i@.len() - k,
    {
        k = k + 1;
    }
    k
}

/// A run of whitespace that is not empty.
pub open spec fn spec_mandatory_whitespace(s: Seq<u8>) -> SpecParsed<()> {
    if s.len() == 0 || !spec_is_whitespace(s[0]) {
        Err(ParseError::Error)
    } else {
        Ok((ws_end(s, 0), ()))
    }
}

/// The length of the run of whitespace at the start of `i`, which must not be empty.
pub fn mandatory_whitespace(i: &[u8]) -> (r: Parsed<()>)
    ensures
        plain(r) == spec_mandatory_whitespace(i@),
{
    if i.len() == 0 || !treat_as_whitespace(i[0]) {
        Err(ParseError::Error)
    } else {
        Ok((whitespace(i), ()))
    }
}

/// The number written by the digits `s[p..q]`.
pub open spec fn dec_value(s: Seq<u8>, p: int, q: int) -> int
    decreases q - p,
{
    if q <= p {
        0
    } else {
        dec_value(s, p, q - 1) * 10 + (s[q - 1] - 0x30)
    }
}

proof fn lemma_dec_value_grows(s: Seq<u8>, p: int, j: int, q: int)
    requires
        p <= j <= q,
        forall|k: int| p <= k < q ==> spec_is_dec(#[trigger] s[k]),
    ensures
        dec_value(s, p, j) <= dec_value(s, p, q),
        0 <= dec_value(s, p, j),
    decreases q - j,
{
    if j < q {
        lemma_dec_value_grows(s, p, j, q - 1);
        assert(spec_is_dec(s[q - 1]));
    } else {
        lemma_dec_value_nonneg(s, p, q);
    }
}

proof fn lemma_dec_value_nonneg(s: Seq<u8>, p: int, q: int)
    requires
        forall|k: int| p <= k < q ==> spec_is_dec(#[trigger] s[k]),
    ensures
        0 <= dec_value(s, p, q),
    decreases q - p,
{
    if q > p {
        lemma_dec_value_nonneg(s, p, q - 1);
        assert(spec_is_dec(s[q - 1]));
    }
}

/// Where the digits of a number start: after a leading `-`, if any.
pub open spec fn digits_start(s: Seq<u8>) -> int {
    if s[0] == 0x2d {
        1
    } else {
        0
    }
}

/// A decimal integer: an optional `-` then digits.  An empty input is
/// incomplete; no digit, or a value outside the `i32` range, is an error.
pub open spec fn spec_str_int(s: Seq<u8>) -> SpecParsed<i32> {
    if s.len() == 0 {
        Err(ParseError::Incomplete)
    } else {
        let p = digits_start(s);
        if p >= s.len() || !spec_is_dec(s[p]) {
            Err(ParseError::Error)
        } else {
            let q = dec_end(s, p);
            let v = if p == 1 { -dec_value(s, p, q) } else { dec_value(s, p, q) };
            if i32::MIN <= v && v <= i32::MAX {
                Ok((q, v as i32))
            } else {
                Err(ParseError::Error)
            }
        }
    }
}

/// Reads a decimal integer: an optional `-` then digits.
pub fn parse_str_int(i: &[u8]) -> (r: Parsed<i32>)
    ensures
        plain(r) == spec_str_int(i@),
{
    if i.len() == 0 {
        return Err(ParseError::Incomplete);
    }
    let p: usize = if i[0] == 0x2d { 1 } else { 0 };
    if p >= i.len() || !is_dec(i[p]) {
        return Err(ParseError::Error);
    }
    proof {
        lemma_dec_end(i@, p as int);
    }
    let ghost q = dec_end(i@, p as int);
    let mut k: usize = p;
    let mut mag: u64 = 0;
    while k < i.len() && is_dec(i[k])
        invariant
            p <= k <= q,
            q == dec_end(i@, p as int),
            q <= i@.len(),
            forall|j: int| p <= j < q ==> spec_is_dec(#[trigger] i@[j]),
            dec_end(i@, p as int) == dec_end(i@, k as int),
            mag == dec_value(i@, p as int, k as int),
            mag <= 2147483648,
            i@.len() > 0,
            p as int == digits_start(i@),
        decreases i@.len() - k,
    {
        proof {
            assert(dec_end(i@, k as int) == dec_end(i@, k as int + 1));
            lemma_dec_end(i@, k as int + 1);
        }
        let d = (i[k] - 0x30) as u64;
        mag = mag * 10 + d;
        k = k + 1;
        assert(mag == dec_value(i@, p as int, k as int));
        if mag > 2147483648 {
            proof {
                lemma_dec_value_grows(i@, p as int, k as int, q);
            }
            return Err(ParseError::Error);
        }
    }
    assert(k as int == q);
    if p == 1 {
        let v = 0i64 - mag as i64;
        Ok((k, v as i32))
    } else {
        if mag > 2147483647 {
            Err(ParseError::Error)
        } else {
            Ok((k, mag as i32))
        }
    }
}

/// The end of a decimal number written `-?digits(.digits)?`, or an error when
/// no digit follows the sign.  Input that ends right after the integer digits
/// is incomplete, since a fraction could still follow.
pub open spec fn spec_float_end(s: Seq<u8>) -> SpecParsed<()> {
    if s.len() == 0 {
        Err(ParseError::Incomplete)
    } else {
        let p = digits_start(s);
        if p >= s.len() || !spec_is_dec(s[p]) {
            Err(ParseError::Error)
        } else {
            let q = dec_end(s, p);
            if q == s.len() {
                Err(ParseError::Incomplete)
            } else if s[q] != 0x2e || q + 1 == s.len() || !spec_is_dec(s[q + 1]) {
                Ok((q, ()))
            } else {
                Ok((dec_end(s, q + 1), ()))
            }
        }
    }
}

/// A decimal number: the bytes as written.
pub open spec fn spec_str_float(s: Seq<u8>) -> SpecParsed<Seq<u8>> {
    match spec_float_end(s) {
        Err(e) => Err(e),
        Ok((n, _)) => Ok((n, s.take(n))),
    }
}

pub proof fn lemma_str_float_bounds(s: Seq<u8>)
    ensures
        spec_float_end(s) matches Ok((n, _)) ==> 0 < n <= s.len(),
{
    if s.len() > 0 {
        let p = digits_start(s);
        if p < s.len() && spec_is_dec(s[p]) {
            lemma_dec_end(s, p);
            let q = dec_end(s, p);
            if q < s.len() && q + 1 < s.len() {
                lemma_dec_end(s, q + 1);
            }
        }
    }
}

pub proof fn lemma_str_int_bounds(s: Seq<u8>)
    ensures
        spec_str_int(s) matches Ok((n, _)) ==> 0 < n <= s.len(),
{
    if s.len() > 0 {
        let p = digits_start(s);
        if p < s.len() && spec_is_dec(s[p]) {
            lemma_dec_end(s, p);
        }
    }
}

/// Finds the end of a decimal number at the start of `i`.
fn float_end(i: &[u8]) -> (r: Parsed<()>)
    ensures
        plain(r) == spec_float_end(i@),
{
    if i.len() == 0 {
        return Err(ParseError::Incomplete);
    }
    let p: usize = if i[0] == 0x2d { 1 } else { 0 };
    if p >= i.len() || !is_dec(i[p]) {
        return Err(ParseError::Error);
    }
    let mut q = p;
    while q < i.len() && is_dec(i[q])
        invariant
            p <= q <= i@.len(),
            dec_end(i@, p as int) == dec_end(i@, q as int),
        decreases i@.len() - q,
    {
        q = q + 1;
    }
    if q == i.len() {
        return Err(ParseError::Incomplete);
    }
    if i[q] != 0x2e || q + 1 == i.len() || !is_dec(i[q + 1]) {
        return Ok((q, ()));
    }
    let mut r = q + 1;
    while r < i.len() && is_dec(i[r])
        invariant
            q + 1 <= r <= i@.len(),
            dec_end(i@, q + 1) == dec_end(i@, r as int),
        decreases i@.len() - r,
    {
        r = r + 1;
    }
    Ok((r, ()))
}

/// Reads a decimal number `-?digits(.digits)?` and keeps its bytes as written.
pub fn parse_str_float(i: &[u8]) -> (r: Parsed<DecimalText>)
    ensures
        parsed_view(r) == spec_str_float(i@),
{
    match float_end(i) {
        Err(e) => Err(e),
        Ok((n, _)) => {
            proof {
                lemma_str_float_bounds(i@);
            }
            let mut bytes: Vec<u8> = Vec::new();
            let mut k: usize = 0;
            while k < n
                invariant
                    k <= n,
                    n <= i@.len(),
                    bytes@ == i@.take(k as int),
                decreases n - k,
            {
                bytes.push(i[k]);
                k = k + 1;
                assert(bytes@ =~= i@.take(k as int));
            }
            Ok((n, DecimalText { bytes }))
        },
    }
}

} // verus!
