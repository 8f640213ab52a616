//! The primitives of the file format: variable-length quantities, chunk
//! tags and big-endian integers.

use vstd::prelude::*;

verus! {

/// The largest magnitude that a variable-length quantity can carry.
pub const MAX_VLQ: u32 = 0x0FFF_FFFF;

/// What can go wrong while a file image is decoded.
#[derive(Clone, Copy, Debug, PartialEq, Eq, Structural)]
pub enum ReadError {
    /// A chunk does not start with the tag that is due there.
    UnexpectedTag,
    /// The header chunk declares a length other than six.
    InvalidHeaderLength,
    /// An event runs over the end that its track chunk declares.
    LengthMismatch,
    /// The buffer ends in the middle of a field.
    TruncatedInput,
    /// A variable-length quantity runs over four bytes.
    UnsupportedValue,
    /// A parameter byte stands where no earlier status byte can be reused.
    MissingStatus,
    /// Kept for file layouts that the decoder does not take.
    UnsupportedFormat,
}

impl ReadError {
    /// Whether the error is one of layout: a wrong tag, a wrong header
    /// length, an event that overruns its track, or a parameter byte with
    /// no status byte to go with it.
    pub open spec fn spec_is_format_error(&self) -> bool {
        *self == ReadError::UnexpectedTag || *self == ReadError::InvalidHeaderLength || *self
            == ReadError::LengthMismatch || *self == ReadError::MissingStatus
    }

    /// Whether the error is one of layout, as against a buffer that ends
    /// early or a value that the format cannot carry.
    pub fn is_format_error(&self) -> (r: bool)
        ensures
            r == self.spec_is_format_error(),
    {
        match *self {
            ReadError::UnexpectedTag => true,
            ReadError::InvalidHeaderLength => true,
            ReadError::LengthMismatch => true,
            ReadError::MissingStatus => true,
            ReadError::TruncatedInput => false,
            ReadError::UnsupportedValue => false,
            ReadError::UnsupportedFormat => false,
        }
    }
}

/// Number of bytes that the magnitude `v` takes on the wire.
pub open spec fn vlq_len(v: nat) -> nat {
    if v < 0x80 {
        1
    } else if v < 0x4000 {
        2
    } else if v < 0x20_0000 {
        3
    } else {
        4
    }
}

/// The wire form of the magnitude `v`: base-128 digits, most significant
/// first, each but the last with its top bit set.
#[verifier::opaque]
pub open spec fn vlq_bytes(v: nat) -> Seq<u8>
    recommends
        v <= MAX_VLQ,
{
    if v < 0x80 {
        seq![v as u8]
    } else if v < 0x4000 {
        seq![(0x80 + v / 0x80) as u8, (v % 0x80) as u8]
    } else if v < 0x20_0000 {
        seq![(0x80 + v / 0x4000) as u8, (0x80 + (v / 0x80) % 0x80) as u8, (v % 0x80) as u8]
    } else {
        seq![
            (0x80 + v / 0x20_0000) as u8,
            (0x80 + (v / 0x4000) % 0x80) as u8,
            (0x80 + (v / 0x80) % 0x80) as u8,
            (v % 0x80) as u8,
        ]
    }
}

/// The seven payload bits of the byte at `i`.
pub open spec fn digit(s: Seq<u8>, i: int) -> nat {
    (s[i] % 0x80) as nat
}

/// Whether the byte at `i` announces a further digit.
pub open spec fn continues(s: Seq<u8>, i: int) -> bool {
    s[i] >= 0x80
}

/// Decoding of the quantity that starts at `pos`: its magnitude and the
/// number of bytes it takes, or the reason why there is none.
#[verifier::opaque]
pub open spec fn vlq_decode(s: Seq<u8>, pos: int) -> Result<(nat, nat), ReadError> {
    if pos < 0 || pos >= s.len() {
        Err(ReadError::TruncatedInput)
    } else if !continues(s, pos) {
        Ok((digit(s, pos), 1))
    } else if pos + 1 >= s.len() {
        Err(ReadError::TruncatedInput)
    } else if !continues(s, pos + 1) {
        Ok((digit(s, pos) * 0x80 + digit(s, pos + 1), 2))
    } else if pos + 2 >= s.len() {
        Err(ReadError::TruncatedInput)
    } else if !continues(s, pos + 2) {
        Ok((digit(s, pos) * 0x4000 + digit(s, pos + 1) * 0x80 + digit(s, pos + 2), 3))
    } else if pos + 3 >= s.len() {
        Err(ReadError::TruncatedInput)
    } else if !continues(s, pos + 3) {
        Ok(
            (
                digit(s, pos) * 0x20_0000 + digit(s, pos + 1) * 0x4000 + digit(s, pos + 2) * 0x80
                    + digit(s, pos + 3),
                4,
            ),
        )
    } else {
        Err(ReadError::UnsupportedValue)
    }
}

/// A variable-length quantity: the unsigned magnitude of a delta time or of
/// a payload length.
#[derive(Clone, Copy, Debug, PartialEq, Eq, Structural)]
pub struct VLQ {
    pub value: u32,
}

impl View for VLQ {
    type V = nat;

    open spec fn view(&self) -> nat {
        self.value as nat
    }
}

impl VLQ {
    /// A quantity is well formed when its magnitude fits in four wire bytes.
    pub open spec fn well_formed(&self) -> bool {
        self.value <= MAX_VLQ
    }

    /// Wraps a magnitude that the format can carry.
    pub fn new(value: u32) -> (r: VLQ)
        requires
            value <= MAX_VLQ,
        ensures
            r@ == value,
            r.well_formed(),
    {
        VLQ { value }
    }

    /// Wraps a magnitude, or reports that the format cannot carry it.
    pub fn checked_new(value: u32) -> (r: Option<VLQ>)
        ensures
            value <= MAX_VLQ ==> r == Some(VLQ { value }),
            value > MAX_VLQ ==> r.is_none(),
    {
        if value <= MAX_VLQ {
            Some(VLQ { value })
        } else {
            None
        }
    }

    /// The magnitude.
    pub fn value(&self) -> (r: u32)
        ensures
            r == self@,
    {
        self.value
    }

    /// The wire form of the quantity.
    pub fn binary(&self) -> (r: Vec<u8>)
        requires
            self.well_formed(),
        ensures
            r@ == vlq_bytes(self@),
    {
        reveal(vlq_bytes);
        let v: u32 = self.value;
        let mut out: Vec<u8> = Vec::new();
        if v >= 0x20_0000 {
            out.push((0x80 + v / 0x20_0000) as u8);
        }
        if v >= 0x4000 {
            out.push((0x80 + (v / 0x4000) % 0x80) as u8);
        }
        if v >= 0x80 {
            out.push((0x80 + (v / 0x80) % 0x80) as u8);
        }
        out.push((v % 0x80) as u8);
        assert(out@ =~= vlq_bytes(self@));
        out
    }

    /// The number of bytes of the wire form.
    pub fn len(&self) -> (r: usize)
        ensures
            r == vlq_len(self@),
            self.well_formed() ==> r == vlq_bytes(self@).len(),
    {
        reveal(vlq_bytes);
        let v: u32 = self.value;
        if v < 0x80 {
            1
        } else if v < 0x4000 {
            2
        } else if v < 0x20_0000 {
            3
        } else {
            4
        }
    }

    /// Decodes the quantity that starts at `pos` of `bytes`, and tells how
    /// many bytes it took.
    pub fn decode(bytes: &[u8], pos: usize) -> (r: Result<(VLQ, usize), ReadError>)
        ensures
            match r {
                Ok((q, n)) => vlq_decode(bytes@, pos as int) == Ok::<(nat, nat), ReadError>((q@, n as nat))
                    && q.well_formed() && 1 <= n <= 4 && pos + n <= bytes@.len(),
                Err(e) => vlq_decode(bytes@, pos as int) == Err::<(nat, nat), ReadError>(e),
            },
    {
        reveal(vlq_decode);
        let mut value: u32 = 0;
        let mut n: usize = 0;
        while n < 4
            invariant
                n <= 4,
                pos + n <= usize::MAX,
                n <= bytes@.len() - pos || n == 0,
                forall|j: int| pos <= j < pos + n ==> continues(bytes@, j),
                n == 0 ==> value == 0,
                n == 1 ==> value == digit(bytes@, pos as int),
                n == 2 ==> value == digit(bytes@, pos as int) * 0x80 + digit(bytes@, pos + 1),
                n == 3 ==> value == digit(bytes@, pos as int) * 0x4000 + digit(bytes@, pos + 1)
                    * 0x80 + digit(bytes@, pos + 2),
            decreases 4 - n,
        {
            proof {
                reveal(vlq_decode);
            }
            if pos >= bytes.len() || n >= bytes.len() - pos {
                return Err(ReadError::TruncatedInput);
            }
            let b: u8 = bytes[pos + n];
            value = value * 0x80 + (b % 0x80) as u32;
            n = n + 1;
            if b < 0x80 {
                return Ok((VLQ { value }, n));
            }
        }
        Err(ReadError::UnsupportedValue)
    }
}

/// The four-byte markers that open the chunks of a file.
#[derive(Clone, Copy, Debug, PartialEq, Eq, Structural)]
pub enum Tag {
    Header,
    Track,
}

/// The marker of the header chunk, `MThd`.
pub open spec fn header_tag() -> Seq<u8> {
    seq![0x4Du8, 0x54u8, 0x68u8, 0x64u8]
}

/// The marker of a track chunk, `MTrk`.
pub open spec fn track_tag() -> Seq<u8> {
    seq![0x4Du8, 0x54u8, 0x72u8, 0x6Bu8]
}

impl Tag {
    /// The marker's bytes.
    pub open spec fn spec_binary(&self) -> Seq<u8> {
        match self {
            Tag::Header => header_tag(),
            Tag::Track => track_tag(),
        }
    }

    /// The marker's bytes.
    pub fn binary(&self) -> (r: [u8; 4])
        ensures
            r@ == self.spec_binary(),
    {
        let r: [u8; 4] = match self {
            Tag::Header => [0x4Du8, 0x54u8, 0x68u8, 0x64u8],
            Tag::Track => [0x4Du8, 0x54u8, 0x72u8, 0x6Bu8],
        };
        assert(r@ =~= self.spec_binary());
        r
    }

    /// Whether the four bytes at `pos` are this marker.
    pub fn matches_at(&self, bytes: &[u8], pos: usize) -> (r: bool)
        requires
            pos + 4 <= bytes@.len(),
        ensures
            r == (bytes@.subrange(pos as int, pos + 4) == self.spec_binary()),
    {
        let t = self.binary();
        let r = bytes[pos] == t[0] && bytes[pos + 1] == t[1] && bytes[pos + 2] == t[2] && bytes[pos
            + 3] == t[3];
        proof {
            let sub = bytes@.subrange(pos as int, pos + 4);
            assert(sub[0] == bytes@[pos as int]);
            assert(sub[1] == bytes@[pos + 1]);
            assert(sub[2] == bytes@[pos + 2]);
            assert(sub[3] == bytes@[pos + 3]);
            if r {
                assert(sub =~= self.spec_binary());
            }
        }
        r
    }
}

/// The two bytes of `v`, most significant first.
pub open spec fn be16(v: nat) -> Seq<u8> {
    seq![(v / 0x100) as u8, (v % 0x100) as u8]
}

/// The four bytes of `v`, most significant first.
pub open spec fn be32(v: nat) -> Seq<u8> {
    seq![
        (v / 0x100_0000) as u8,
        ((v / 0x1_0000) % 0x100) as u8,
        ((v / 0x100) % 0x100) as u8,
        (v % 0x100) as u8,
    ]
}

/// The number that the two bytes at `pos` spell, most significant first.
pub open spec fn read_be16(s: Seq<u8>, pos: int) -> nat {
    (s[pos] * 0x100 + s[pos + 1]) as nat
}

/// The number that the four bytes at `pos` spell, most significant first.
pub open spec fn read_be32(s: Seq<u8>, pos: int) -> nat {
    (s[pos] * 0x100_0000 + s[pos + 1] * 0x1_0000 + s[pos + 2] * 0x100 + s[pos + 3]) as nat
}

/// Appends the two bytes of `v` to `out`.
pub fn push_be16(out: &mut Vec<u8>, v: u16)
    ensures
        final(out)@ == old(out)@ + be16(v as nat),
{
    out.push((v / 0x100) as u8);
    out.push((v % 0x100) as u8);
    assert(out@ =~= old(out)@ + be16(v as nat));
}

/// Appends the four bytes of `v` to `out`.
pub fn push_be32(out: &mut Vec<u8>, v: u32)
    ensures
        final(out)@ == old(out)@ + be32(v as nat),
{
    out.push((v / 0x100_0000) as u8);
    out.push(((v / 0x1_0000) % 0x100) as u8);
    out.push(((v / 0x100) % 0x100) as u8);
    out.push((v % 0x100) as u8);
    assert(out@ =~= old(out)@ + be32(v as nat));
}

/// Reads the two bytes at `pos` as a number.
pub fn get_be16(bytes: &[u8], pos: usize) -> (r: u16)
    requires
        pos + 2 <= bytes@.len(),
    ensures
        r == read_be16(bytes@, pos as int),
{
    let hi: u16 = bytes[pos] as u16;
    let lo: u16 = bytes[pos + 1] as u16;
    hi * 0x100 + lo
}

/// Reads the four bytes at `pos` as a number.
pub fn get_be32(bytes: &[u8], pos: usize) -> (r: u32)
    requires
        pos + 4 <= bytes@.len(),
    ensures
        r == read_be32(bytes@, pos as int),
{
    let a: u32 = bytes[pos] as u32;
    let b: u32 = bytes[pos + 1] as u32;
    let c: u32 = bytes[pos + 2] as u32;
    let d: u32 = bytes[pos + 3] as u32;
    a * 0x100_0000 + b * 0x1_0000 + c * 0x100 + d
}

/// Appends the bytes of `src` from index `from` on to `out`.
pub fn push_all(out: &mut Vec<u8>, src: &[u8], from: usize)
    requires
        from <= src@.len(),
    ensures
        final(out)@ == old(out)@ + src@.subrange(from as int, src@.len() as int),
{
    let mut i: usize = from;
    while i < src.len()
        invariant
            from <= i <= src@.len(),
            out@ == old(out)@ + src@.subrange(from as int, i as int),
        decreases src@.len() - i,
    {
        out.push(src[i]);
        i = i + 1;
        assert(out@ =~= old(out)@ + src@.subrange(from as int, i as int));
    }
}

/// The digits of a magnitude in base 128 add up to it again.
proof fn lemma_digits(v: nat)
    requires
        v <= MAX_VLQ,
    ensures
        v / 0x20_0000 < 0x80,
        v == (v / 0x20_0000) * 0x20_0000 + ((v / 0x4000) % 0x80) * 0x4000 + ((v / 0x80) % 0x80)
            * 0x80 + v % 0x80,
        v < 0x20_0000 ==> v / 0x4000 < 0x80 && v / 0x20_0000 == 0 && (v / 0x4000) % 0x80 == v
            / 0x4000,
        v < 0x4000 ==> v / 0x80 < 0x80 && v / 0x4000 == 0 && (v / 0x80) % 0x80 == v / 0x80,
        v >= 0x80 ==> v / 0x80 >= 1,
        v >= 0x4000 ==> v / 0x4000 >= 1,
        v >= 0x20_0000 ==> v / 0x20_0000 >= 1,
{
}

/// A quantity survives the wire: decoding the bytes of `v`, wherever they
/// stand in a buffer, gives `v` back together with the number of bytes
/// that encoding it took.
pub proof fn lemma_vlq_round_trip(v: nat, before: Seq<u8>, after: Seq<u8>)
    requires
        v <= MAX_VLQ,
    ensures
        vlq_bytes(v).len() == vlq_len(v),
        1 <= vlq_len(v) <= 4,
        vlq_decode(before + vlq_bytes(v) + after, before.len() as int) == Ok::<
            (nat, nat),
            ReadError,
        >((v, vlq_len(v))),
{
    reveal(vlq_bytes);
    reveal(vlq_decode);
    lemma_digits(v);
    let e = vlq_bytes(v);
    let s = before + e + after;
    let p = before.len() as int;
    let a = v / 0x20_0000;
    let b = (v / 0x4000) % 0x80;
    let c = (v / 0x80) % 0x80;
    let d = v % 0x80;
    assert(s.len() == p + e.len() + after.len());
    if v < 0x80 {
        assert(s[p] == e[0]);
        assert(e[0] == d);
    } else if v < 0x4000 {
        assert(s[p] == e[0]);
        assert(s[p + 1] == e[1]);
        assert(e[0] == 0x80 + c);
        assert(e[1] == d);
        assert(digit(s, p) == c);
        assert(digit(s, p + 1) == d);
    } else if v < 0x20_0000 {
        assert(s[p] == e[0]);
        assert(s[p + 1] == e[1]);
        assert(s[p + 2] == e[2]);
        assert(e[0] == 0x80 + b);
        assert(e[1] == 0x80 + c);
        assert(e[2] == d);
        assert(digit(s, p) == b);
        assert(digit(s, p + 1) == c);
        assert(digit(s, p + 2) == d);
    } else {
        assert(s[p] == e[0]);
        assert(s[p + 1] == e[1]);
        assert(s[p + 2] == e[2]);
        assert(s[p + 3] == e[3]);
        assert(e[0] == 0x80 + a);
        assert(e[1] == 0x80 + b);
        assert(e[2] == 0x80 + c);
        assert(e[3] == d);
        assert(digit(s, p) == a);
        assert(digit(s, p + 1) == b);
        assert(digit(s, p + 2) == c);
        assert(digit(s, p + 3) == d);
    }
}

} // verus!
