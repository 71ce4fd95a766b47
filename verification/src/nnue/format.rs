//! Reading the container of a network.
//!
//! All integers are little-endian. A header holds the version, the hash of the
//! network's shape and a description; sections follow, each with the hash of
//! what it describes. Blocks of compressed numbers carry a marker and the number
//! of their bytes, which must be used up exactly.
use vstd::prelude::*;
use vstd::string::*;

verus! {

/// The version of the container.
pub const VERSION: u32 = 0x6A44_8AFA;

/// The longest description that is believed.
pub const MAX_DESCRIPTION: usize = 65536;

/// The marker before every compressed block.
pub open spec fn leb128_magic() -> Seq<u8> {
    seq![
        0x43u8, 0x4f, 0x4d, 0x50, 0x52, 0x45, 0x53, 0x53, 0x45, 0x44, 0x5f, 0x4c, 0x45, 0x42, 0x31,
        0x32, 0x38,
    ]
}

/// The marker before every compressed block, `COMPRESSED_LEB128`.
pub const LEB128_MAGIC: [u8; 17] = [
    0x43,
    0x4f,
    0x4d,
    0x50,
    0x52,
    0x45,
    0x53,
    0x53,
    0x45,
    0x44,
    0x5f,
    0x4c,
    0x45,
    0x42,
    0x31,
    0x32,
    0x38,
];

/// Why a network cannot be used: the section that was read and what was wrong
/// with it.
#[derive(Debug, Clone, Copy)]
pub struct FormatError {
    pub context: &'static str,
    pub reason: &'static str,
}

impl FormatError {
    pub fn new(context: &'static str, reason: &'static str) -> (r: Self)
        ensures
            r.context@ == context@,
            r.reason@ == reason@,
    {
        FormatError { context, reason }
    }

    /// The error in words.
    pub fn message(&self) -> (r: String)
        ensures
            r@ == self.context@ + ": "@ + self.reason@,
    {
        let mut s: String = self.context.to_owned();
        s.append(": ");
        s.append(self.reason);
        s
    }
}

/// The result is the error with this context and reason.
pub open spec fn fails<T>(r: Result<T, FormatError>, context: Seq<char>, reason: Seq<char>) -> bool {
    r matches Err(e) && e.context@ == context && e.reason@ == reason
}

/// The number of four bytes, the lowest first.
pub open spec fn le_u32(b: Seq<u8>) -> u32 {
    (b[0] + 256 * b[1] + 65536 * b[2] + 16777216 * b[3]) as u32
}

/// The four bytes of a number, the lowest first.
pub open spec fn le_bytes(v: u32) -> Seq<u8> {
    seq![
        (v % 256) as u8,
        (v / 256 % 256) as u8,
        (v / 65536 % 256) as u8,
        (v / 16777216) as u8,
    ]
}

/// Integers that are read from little-endian bytes.
pub trait LeBytes: Copy {
    /// How many bytes the integer has.
    spec fn width() -> nat;

    /// The integer of its bytes, the lowest first.
    spec fn decoded(b: Seq<u8>) -> Self;

    fn size() -> (r: usize)
        ensures
            r == Self::width(),
            1 <= r <= 4,
    ;

    fn from_le_bytes(b: &[u8]) -> (r: Self)
        requires
            b@.len() >= Self::width(),
        ensures
            r == Self::decoded(b@),
    ;
}

impl LeBytes for i8 {
    open spec fn width() -> nat {
        1
    }

    open spec fn decoded(b: Seq<u8>) -> i8 {
        b[0] as i8
    }

    fn size() -> (r: usize) {
        1
    }

    fn from_le_bytes(b: &[u8]) -> (r: i8) {
        b[0] as i8
    }
}

impl LeBytes for i16 {
    open spec fn width() -> nat {
        2
    }

    open spec fn decoded(b: Seq<u8>) -> i16 {
        ((b[0] + 256 * b[1]) as u16) as i16
    }

    fn size() -> (r: usize) {
        2
    }

    fn from_le_bytes(b: &[u8]) -> (r: i16) {
        let w: u16 = b[0] as u16 + 256 * b[1] as u16;
        w as i16
    }
}

impl LeBytes for i32 {
    open spec fn width() -> nat {
        4
    }

    open spec fn decoded(b: Seq<u8>) -> i32 {
        le_u32(b) as i32
    }

    fn size() -> (r: usize) {
        4
    }

    fn from_le_bytes(b: &[u8]) -> (r: i32) {
        let w: u32 = b[0] as u32 + 256 * b[1] as u32 + 65536 * b[2] as u32 + 16777216 * b[3] as u32;
        w as i32
    }
}

// --- compressed numbers -------------------------------------------------------------

/// What the bits read so far come to with one more byte, `shift` bits up.
pub open spec fn leb_join(result: u32, byte: u8, shift: nat) -> u32 {
    result | (((byte & 0x7f) as u32) << ((shift % 32) as u32))
}

/// The number of a finished group: its sign goes all the way up, unless the
/// group already fills 32 bits.
pub open spec fn leb_finish(result: u32, last: u8, shift: nat) -> u32 {
    if shift >= 32 || last & 0x40 == 0 {
        result
    } else {
        result | !(((1u32 << (shift as u32)) - 1) as u32)
    }
}

/// Reads one number: the bytes up to and with the first one below 0x80. The
/// number and how many bytes it took, or nothing where the bytes run out.
pub open spec fn leb_one(b: Seq<u8>, at: int, result: u32, shift: nat) -> Option<(u32, int)>
    decreases b.len() - at,
{
    if at < 0 || at >= b.len() {
        None
    } else {
        let joined = leb_join(result, b[at], shift);
        if b[at] & 0x80 == 0 {
            Some((leb_finish(joined, b[at], shift + 7), at + 1))
        } else {
            leb_one(b, at + 1, joined, shift + 7)
        }
    }
}

/// Reads `n` numbers from `at` on: the numbers and where they end, or nothing
/// where the bytes run out.
pub open spec fn leb_many(b: Seq<u8>, at: int, n: nat) -> Option<(Seq<u32>, int)>
    decreases n,
{
    if n == 0 {
        Some((Seq::empty(), at))
    } else {
        match leb_many(b, at, (n - 1) as nat) {
            Some((vs, e)) => match leb_one(b, e, 0, 0) {
                Some((v, f)) => Some((vs.push(v), f)),
                None => None,
            },
            None => None,
        }
    }
}

/// The bytes of a block that may be read: no more than declared, no more than
/// there are.
pub open spec fn leb_payload(b: Seq<u8>, declared: u32) -> Seq<u8> {
    if declared <= b.len() {
        b.take(declared as int)
    } else {
        b
    }
}

/// A reader over the bytes of a network.
pub struct Reader<'a> {
    data: &'a [u8],
    pos: usize,
}

impl<'a> Reader<'a> {
    /// The bytes that are still to be read.
    pub closed spec fn remaining(&self) -> Seq<u8> {
        self.data@.skip(self.pos as int)
    }

    #[verifier::type_invariant]
    spec fn within(self) -> bool {
        self.pos <= self.data@.len()
    }

    pub fn new(data: &'a [u8]) -> (r: Self)
        ensures
            r.remaining() == data@,
    {
        Reader { data, pos: 0 }
    }

    /// How many bytes are still to be read.
    fn left(&self) -> (r: usize)
        ensures
            r == self.remaining().len(),
    {
        proof {
            use_type_invariant(self);
        }
        self.data.len() - self.pos
    }

    /// Drops what is left.
    fn exhaust(&mut self)
        ensures
            final(self).remaining().len() == 0,
    {
        self.pos = self.data.len();
    }

    /// Fills `out` completely, or fails and leaves nothing to be read.
    pub fn read_exact(&mut self, out: &mut [u8], what: &'static str) -> (r: Result<(), FormatError>)
        ensures
            final(out)@.len() == old(out)@.len(),
            r is Ok <==> old(self).remaining().len() >= old(out)@.len(),
            r is Ok ==> final(out)@ == old(self).remaining().take(old(out)@.len() as int)
                && final(self).remaining() == old(self).remaining().skip(old(out)@.len() as int),
            r is Err ==> fails(r, "truncated net"@, what@) && final(self).remaining().len() == 0,
    {
        proof {
            use_type_invariant(&*self);
        }
        let n: usize = out.len();
        if self.left() < n {
            self.exhaust();
            return Err(FormatError::new("truncated net", what));
        }
        let start: usize = self.pos;
        let data: &'a [u8] = self.data;
        let total: usize = data.len();
        let mut i: usize = 0;
        while i < n
            invariant
                i <= n,
                n == out@.len(),
                total == data@.len(),
                start + n <= total,
                forall|j: int| 0 <= j < i ==> out@[j] == data@[start + j],
            decreases n - i,
        {
            out[i] = data[start + i];
            i = i + 1;
        }
        self.pos = start + n;
        proof {
            assert(out@ =~= old(self).remaining().take(n as int));
            assert(self.remaining() =~= old(self).remaining().skip(n as int));
        }
        Ok(())
    }

    /// Reads `n` bytes.
    pub fn read_bytes(&mut self, n: usize) -> (r: Result<Vec<u8>, FormatError>)
        ensures
            r is Ok <==> old(self).remaining().len() >= n,
            r matches Ok(v) ==> v@ == old(self).remaining().take(n as int)
                && final(self).remaining() == old(self).remaining().skip(n as int),
            r is Err ==> fails(r, "truncated net"@, "truncated net"@)
                && final(self).remaining().len() == 0,
    {
        proof {
            use_type_invariant(&*self);
        }
        if self.left() < n {
            self.exhaust();
            return Err(FormatError::new("truncated net", "truncated net"));
        }
        let start: usize = self.pos;
        let data: &'a [u8] = self.data;
        let total: usize = data.len();
        let mut v: Vec<u8> = Vec::new();
        let mut i: usize = 0;
        while i < n
            invariant
                i <= n,
                v@.len() == i,
                total == data@.len(),
                start + n <= total,
                forall|j: int| 0 <= j < i ==> v@[j] == data@[start + j],
            decreases n - i,
        {
            v.push(data[start + i]);
            i = i + 1;
        }
        self.pos = start + n;
        proof {
            assert(v@ =~= old(self).remaining().take(n as int));
            assert(self.remaining() =~= old(self).remaining().skip(n as int));
        }
        Ok(v)
    }

    /// Reads one number of four bytes.
    pub fn read_u32(&mut self) -> (r: Result<u32, FormatError>)
        ensures
            r is Ok <==> old(self).remaining().len() >= 4,
            r matches Ok(v) ==> v == le_u32(old(self).remaining()) && final(self).remaining()
                == old(self).remaining().skip(4),
            r is Err ==> fails(r, "truncated net"@, "truncated net"@)
                && final(self).remaining().len() == 0,
    {
        match self.read_bytes(4) {
            Ok(b) => Ok(
                b[0] as u32 + 256 * b[1] as u32 + 65536 * b[2] as u32 + 16777216 * b[3] as u32,
            ),
            Err(e) => Err(e),
        }
    }

    /// Reads the hash of a section and holds it to what is expected.
    pub fn read_section_hash(&mut self, expected: u32, context: &'static str) -> (r: Result<
        u32,
        FormatError,
    >)
        ensures
            old(self).remaining().len() < 4 ==> fails(r, "truncated net"@, "truncated net"@),
            old(self).remaining().len() >= 4 && le_u32(old(self).remaining()) != expected ==> fails(
                r,
                context@,
                "net is incompatible with this engine (section hash mismatch)"@,
            ),
            old(self).remaining().len() >= 4 && le_u32(old(self).remaining()) == expected ==> r
                == Ok::<u32, FormatError>(expected),
            old(self).remaining().len() >= 4 ==> final(self).remaining()
                == old(self).remaining().skip(4),
    {
        match self.read_u32() {
            Ok(h) => {
                if h != expected {
                    Err(
                        FormatError::new(
                            context,
                            "net is incompatible with this engine (section hash mismatch)",
                        ),
                    )
                } else {
                    Ok(h)
                }
            },
            Err(e) => Err(e),
        }
    }

    /// Fills `out` with little-endian integers, or fails.
    pub fn read_le_array<T: LeBytes>(&mut self, out: &mut [T], what: &'static str) -> (r: Result<
        (),
        FormatError,
    >)
        ensures
            final(out)@.len() == old(out)@.len(),
            r is Ok <==> old(self).remaining().len() >= old(out)@.len() * T::width(),
            r is Ok ==> (forall|k: int|
                0 <= k < old(out)@.len() ==> #[trigger] final(out)@[k] == T::decoded(
                    old(self).remaining().subrange(
                        (k * T::width()) as int,
                        (k * T::width() + T::width()) as int,
                    ),
                )) && final(self).remaining() == old(self).remaining().skip(
                (old(out)@.len() * T::width()) as int,
            ),
            r is Err ==> fails(r, "truncated net"@, what@) && final(self).remaining().len() == 0,
    {
        proof {
            use_type_invariant(&*self);
        }
        let n: usize = out.len();
        let w: usize = T::size();
        let have: usize = self.left();
        if have / w < n {
            proof {
                let q = (have / w) as int;
                assert(n * w >= (q + 1) * w) by (nonlinear_arith)
                    requires
                        n >= q + 1,
                        w >= 1,
                ;
                vstd::arithmetic::div_mod::lemma_fundamental_div_mod(have as int, w as int);
                assert((q + 1) * w == w * q + w) by (nonlinear_arith);
            }
            self.exhaust();
            return Err(FormatError::new("truncated net", what));
        }
        proof {
            let q = (have / w) as int;
            vstd::arithmetic::div_mod::lemma_fundamental_div_mod(have as int, w as int);
            assert(n * w <= w * q) by (nonlinear_arith)
                requires
                    n <= q,
                    w >= 1,
            ;
        }
        let start: usize = self.pos;
        let data: &'a [u8] = self.data;
        let total: usize = data.len();
        let ghost rest = self.remaining();
        let mut i: usize = 0;
        while i < n
            invariant
                i <= n,
                n == out@.len(),
                w == T::width(),
                1 <= w <= 4,
                total == data@.len(),
                start + n * w <= total,
                start <= total,
                rest == data@.skip(start as int),
                forall|k: int|
                    0 <= k < i ==> #[trigger] out@[k] == T::decoded(
                        rest.subrange((k * w) as int, (k * w + w) as int),
                    ),
            decreases n - i,
        {
            proof {
                assert(i * w + w <= n * w) by (nonlinear_arith)
                    requires
                        i + 1 <= n,
                        w >= 1,
                ;
                assert(i * w >= 0) by (nonlinear_arith);
            }
            let a: usize = start + i * w;
            let piece: &[u8] = &data[a..a + w];
            assert(piece@ =~= rest.subrange((i * w) as int, (i * w + w) as int));
            out[i] = T::from_le_bytes(piece);
            i = i + 1;
        }
        self.pos = start + n * w;
        proof {
            assert(self.remaining() =~= rest.skip((n * w) as int));
        }
        Ok(())
    }

    /// Reads a block of compressed numbers into `out`.
    ///
    /// The block is the marker, the number of its bytes and the bytes, seven
    /// bits of a number in each with the lowest first; the numbers must use up
    /// the bytes exactly.
    #[verifier::spinoff_prover]
    #[verifier::rlimit(40)]
    pub fn read_leb128<T: LeBytes>(&mut self, out: &mut [T], what: &'static str) -> (r: Result<
        (),
        FormatError,
    >)
        ensures
            final(out)@.len() == old(out)@.len(),
            leb_outcome(old(self).remaining(), old(out)@.len(), r, what@),
            r is Ok ==> {
                let b = old(self).remaining().skip(21);
                let declared = le_u32(old(self).remaining().skip(17));
                &&& forall|k: int|
                    0 <= k < old(out)@.len() ==> #[trigger] final(out)@[k] == T::decoded(
                        le_bytes(
                            leb_many(leb_payload(b, declared), 0, old(out)@.len()).unwrap().0[k],
                        ),
                    )
                &&& final(self).remaining() == b.skip(declared as int)
            },
    {
        let ghost all = self.remaining();
        match self.read_bytes(17) {
            Ok(m) => {
                let mut i: usize = 0;
                let mut same: bool = true;
                while i < 17
                    invariant
                        i <= 17,
                        m@.len() == 17,
                        same <==> forall|j: int| 0 <= j < i ==> m@[j] == LEB128_MAGIC@[j],
                    decreases 17 - i,
                {
                    if m[i] != LEB128_MAGIC[i] {
                        same = false;
                    }
                    i = i + 1;
                }
                proof {
                    assert(LEB128_MAGIC@ =~= leb128_magic());
                    assert(same <==> m@ =~= leb128_magic());
                }
                if !same {
                    return Err(
                        FormatError::new(
                            what,
                            "missing COMPRESSED_LEB128 marker (section is not compressed)",
                        ),
                    );
                }
            },
            Err(_) => {
                return Err(
                    FormatError::new(
                        what,
                        "missing COMPRESSED_LEB128 marker (section is not compressed)",
                    ),
                );
            },
        }
        let declared: u32 = match self.read_u32() {
            Ok(v) => v,
            Err(e) => {
                return Err(e);
            },
        };
        proof {
            use_type_invariant(&*self);
            assert(self.remaining() =~= all.skip(21));
        }
        let ghost b = self.remaining();
        let n: usize = out.len();
        let w: usize = T::size();
        let start: usize = self.pos;
        let data: &'a [u8] = self.data;
        let total: usize = data.len();
        let have: usize = self.left();
        let limit: usize = if declared as usize <= have {
            declared as usize
        } else {
            have
        };
        let ghost p = leb_payload(b, declared);
        proof {
            assert(p.len() == limit);
            assert(forall|j: int| 0 <= j < limit ==> p[j] == data@[start + j]);
        }
        let mut at: usize = 0;
        let mut i: usize = 0;
        while i < n
            invariant
                i <= n,
                n == out@.len(),
                at <= limit,
                total == data@.len(),
                start + limit <= total,
                w == T::width(),
                w <= 4,
                p.len() == limit,
                forall|j: int| 0 <= j < limit ==> p[j] == data@[start + j],
                leb_many(p, 0, i as nat) matches Some((vs, e)) && e == at && vs.len() == i && (
                forall|k: int|
                    0 <= k < i ==> #[trigger] out@[k] == T::decoded(le_bytes(vs[k]))),
                limit == (if declared <= have {
                    declared as int
                } else {
                    have as int
                }),
                have == b.len(),
                p == leb_payload(b, declared),
                all.len() >= 21,
                all.take(17) == leb128_magic(),
                le_u32(all.skip(17)) == declared,
                b == all.skip(21),
                n == old(out)@.len(),
                all == old(self).remaining(),
            decreases n - i,
        {
            let ghost vs = leb_many(p, 0, i as nat).unwrap().0;
            let ghost begin = at as int;
            let mut result: u32 = 0;
            let mut shift: u32 = 0;
            let mut full: bool = false;
            let ghost mut bits: nat = 0;
            let mut done: bool = false;
            let mut value: u32 = 0;
            while !done
                invariant
                    !done ==> at <= limit,
                    total == data@.len(),
                    start + limit <= total,
                    p.len() == limit,
                    forall|j: int| 0 <= j < limit ==> p[j] == data@[start + j],
                    shift == bits % 32,
                    full == (bits >= 32),
                    shift < 32,
                    !done ==> leb_one(p, begin, 0, 0) == leb_one(p, at as int, result, bits),
                    done ==> at <= limit && leb_one(p, begin, 0, 0) == Some((value, at as int)),
                    leb_many(p, 0, i as nat) matches Some((ws, e)) && e == begin && ws == vs,
                    i < n,
                    limit == (if declared <= have {
                        declared as int
                    } else {
                        have as int
                    }),
                    have == b.len(),
                    p == leb_payload(b, declared),
                    all.len() >= 21,
                    all.take(17) == leb128_magic(),
                    le_u32(all.skip(17)) == declared,
                    b == all.skip(21),
                    n == old(out)@.len(),
                    n == out@.len(),
                    all == old(self).remaining(),
                decreases
                        (if done {
                            0int
                        } else {
                            1
                        }),
                        limit - at,
            {
                if at == limit {
                    proof {
                        assert(leb_one(p, begin, 0, 0) is None);
                        assert(leb_many(p, 0, (i + 1) as nat) is None);
                        lemma_many_none(p, 0, (i + 1) as nat, n as nat);
                    }
                    if declared as usize <= have {
                        return Err(FormatError::new(what, "LEB128 payload longer than declared"));
                    }
                    return Err(FormatError::new(what, "LEB128 payload ended too early"));
                }
                let byte: u8 = data[start + at];
                result = result | (((byte & 0x7f) as u32) << shift);
                proof {
                    bits = bits + 7;
                }
                if shift + 7 >= 32 {
                    full = true;
                    shift = shift + 7 - 32;
                } else {
                    shift = shift + 7;
                }
                at = at + 1;
                if byte & 0x80 == 0 {
                    if full || byte & 0x40 == 0 {
                        value = result;
                    } else {
                        proof {
                            let s = shift;
                            assert(s < 32 ==> 1u32 << s >= 1) by (bit_vector);
                        }
                        value = result | !((1u32 << shift) - 1);
                    }
                    done = true;
                }
            }
            let raw: [u8; 4] = [
                (value % 256) as u8,
                (value / 256 % 256) as u8,
                (value / 65536 % 256) as u8,
                (value / 16777216) as u8,
            ];
            assert(raw@ =~= le_bytes(value));
            let ghost before = out@;
            out[i] = T::from_le_bytes(&raw);
            proof {
                let ws = leb_many(p, 0, (i + 1) as nat).unwrap().0;
                assert(ws == vs.push(value));
                assert forall|k: int| 0 <= k < i + 1 implies #[trigger] out@[k] == T::decoded(
                    le_bytes(ws[k]),
                ) by {
                    if k < i {
                        assert(out@[k] == before[k]);
                    }
                }
            }
            i = i + 1;
        }
        if at as u64 != declared as u64 {
            return Err(FormatError::new(what, "LEB128 payload shorter than declared"));
        }
        self.pos = start + at;
        proof {
            assert(self.remaining() =~= b.skip(declared as int));
        }
        Ok(())
    }

    /// Succeeds where everything has been read.
    pub fn expect_eof(&mut self, what: &'static str) -> (r: Result<(), FormatError>)
        ensures
            final(self).remaining() == old(self).remaining(),
            r is Ok <==> old(self).remaining().len() == 0,
            r is Err ==> fails(r, what@, "unexpected trailing data"@),
    {
        if self.left() == 0 {
            Ok(())
        } else {
            Err(FormatError::new(what, "unexpected trailing data"))
        }
    }
}

/// The text of bytes, with a replacement mark for what is no UTF-8.
pub uninterp spec fn lossy_text(b: Seq<u8>) -> Seq<char>;

/// Calls `String::from_utf8_lossy`: the result depends on the bytes alone, and
/// bytes that are UTF-8 give the text that they encode.
#[verifier::external_body]
fn utf8_lossy(b: &[u8]) -> (r: String)
    ensures
        r@ == lossy_text(b@),
        vstd::utf8::valid_utf8(b@) ==> r@ == vstd::utf8::decode_utf8(b@),
{
    String::from_utf8_lossy(b).into_owned()
}

/// What the header says beside the version.
#[derive(Debug)]
pub struct Header {
    pub network_hash: u32,
    pub description: String,
}

/// When reading a header succeeds, and which error comes when it does not.
pub open spec fn header_outcome(all: Seq<u8>, expected: u32, r: Result<Header, FormatError>) -> bool {
    let ctx = "net header"@;
    if all.len() < 4 {
        fails(r, ctx, "file is too short to contain a version"@)
    } else if le_u32(all) != VERSION {
        fails(r, ctx, "unsupported net version (expected 0x6A448AFA)"@)
    } else if all.len() < 8 {
        fails(r, ctx, "file is too short to contain a network hash"@)
    } else if le_u32(all.skip(4)) != expected {
        fails(
            r,
            ctx,
            "network architecture hash mismatch (net built for a different engine)"@,
        )
    } else if all.len() < 12 {
        fails(r, ctx, "file is truncated in the description"@)
    } else if le_u32(all.skip(8)) > MAX_DESCRIPTION {
        fails(r, ctx, "implausible description length (corrupt file)"@)
    } else if all.len() < 12 + le_u32(all.skip(8)) {
        fails(r, ctx, "file is truncated in the description"@)
    } else {
        r is Ok
    }
}

impl<'a> Reader<'a> {
    /// Reads the header and holds it to the version and to the shape that is
    /// expected.
    pub fn read_header(&mut self, expected_network_hash: u32) -> (r: Result<Header, FormatError>)
        ensures
            header_outcome(old(self).remaining(), expected_network_hash, r),
            r matches Ok(h) ==> {
                let n = le_u32(old(self).remaining().skip(8)) as int;
                let text = old(self).remaining().subrange(12, 12 + n);
                &&& h.network_hash == expected_network_hash
                &&& h.description@ == lossy_text(text)
                &&& vstd::utf8::valid_utf8(text) ==> h.description@ == vstd::utf8::decode_utf8(text)
                &&& final(self).remaining() == old(self).remaining().skip(12 + n)
            },
    {
        let ghost all = self.remaining();
        let version: u32 = match self.read_u32() {
            Ok(v) => v,
            Err(_) => {
                return Err(
                    FormatError::new("net header", "file is too short to contain a version"),
                );
            },
        };
        if version != VERSION {
            return Err(
                FormatError::new("net header", "unsupported net version (expected 0x6A448AFA)"),
            );
        }
        let network_hash: u32 = match self.read_u32() {
            Ok(v) => v,
            Err(_) => {
                return Err(
                    FormatError::new("net header", "file is too short to contain a network hash"),
                );
            },
        };
        if network_hash != expected_network_hash {
            return Err(
                FormatError::new(
                    "net header",
                    "network architecture hash mismatch (net built for a different engine)",
                ),
            );
        }
        proof {
            assert(self.remaining() =~= all.skip(8));
        }
        let len: usize = match self.read_u32() {
            Ok(v) => v as usize,
            Err(_) => {
                return Err(FormatError::new("net header", "file is truncated in the description"));
            },
        };
        if len > MAX_DESCRIPTION {
            return Err(
                FormatError::new("net header", "implausible description length (corrupt file)"),
            );
        }
        proof {
            assert(self.remaining() =~= all.skip(12));
        }
        match self.read_bytes(len) {
            Ok(raw) => {
                proof {
                    assert(raw@ =~= all.subrange(12, 12 + len));
                    assert(self.remaining() =~= all.skip(12 + len));
                }
                Ok(Header { network_hash, description: utf8_lossy(raw.as_slice()) })
            },
            Err(_) => Err(FormatError::new("net header", "file is truncated in the description")),
        }
    }
}

// --- what was written is read back -------------------------------------------------

/// The bytes that stand for a number: seven bits in each, the lowest first, as
/// many as keep the sign.
pub open spec fn leb_encode(v: i32) -> Seq<u8>
    decreases
            (if v < 0 {
                -v
            } else {
                v as int
            }),
{
    let low = (v & 0x7f) as u8;
    let up = v >> 7u32;
    if (low & 0x40 == 0 && up == 0) || (low & 0x40 != 0 && up == -1) {
        seq![low]
    } else {
        proof {
            lemma_encode_shrinks(v);
        }
        seq![low | 0x80] + leb_encode(up)
    }
}

/// Each byte taken off brings a number nearer to 0 or -1.
pub proof fn lemma_encode_shrinks(v: i32)
    ensures
        v > 0 ==> 0 <= v >> 7u32 < v,
        v < -1 ==> v < v >> 7u32 <= -1,
        v == 0 || v == -1 ==> v >> 7u32 == v && (v == 0 ==> ((v & 0x7f) as u8) & 0x40 == 0) && (v
            == -1 ==> ((v & 0x7f) as u8) & 0x40 != 0),
{
    assert((v > 0 ==> 0 <= v >> 7u32 < v) && (v < -1 ==> v < v >> 7u32 <= -1) && (v == 0 || v == -1
        ==> v >> 7u32 == v && (v == 0 ==> ((v & 0x7f) as u8) & 0x40 == 0) && (v == -1 ==> ((v
        & 0x7f) as u8) & 0x40 != 0))) by (bit_vector);
}

/// The bytes that stand for numbers, one number after the other.
pub open spec fn leb_encode_all(vs: Seq<i32>) -> Seq<u8>
    decreases vs.len(),
{
    if vs.len() == 0 {
        Seq::empty()
    } else {
        leb_encode_all(vs.drop_last()) + leb_encode(vs.last())
    }
}

/// Reading on in the middle of a number gives the number, where the bits read
/// so far are its low bits.
proof fn lemma_leb_one(b: Seq<u8>, at: int, x: i32, v: i32, result: u32, shift: nat)
    requires
        shift == 0 || shift == 7 || shift == 14 || shift == 21 || shift == 28,
        v == x >> (shift as u32),
        result == (x as u32) & (((1u32 << (shift as u32)) - 1) as u32),
        0 <= at,
        at + leb_encode(v).len() <= b.len(),
        b.subrange(at, at + leb_encode(v).len()) == leb_encode(v),
    ensures
        leb_one(b, at, result, shift) == Some((x as u32, at + leb_encode(v).len())),
    decreases 35 - shift,
{
    let s = shift as u32;
    let low = (v & 0x7f) as u8;
    let up = v >> 7u32;
    let enc = leb_encode(v);
    let xu = x as u32;
    assert(enc.len() >= 1);
    assert(b.subrange(at, at + enc.len())[0] == b[at]);
    let byte = b[at];
    assert(byte == enc[0]);
    assert((s % 32) == s);
    assert(low & 0x80 == 0 && (low | 0x80) & 0x80 != 0 && (low | 0x80) & 0x7f == low & 0x7f) by (
    bit_vector)
        requires
            low == (v & 0x7f) as u8,
    ;
    if (low & 0x40 == 0 && up == 0) || (low & 0x40 != 0 && up == -1) {
        assert(s <= 21 ==> (if low & 0x40 == 0 {
            result | (((low & 0x7f) as u32) << s)
        } else {
            (result | (((low & 0x7f) as u32) << s)) | !(((1u32 << ((s + 7) as u32)) - 1) as u32)
        }) == xu) by (bit_vector)
            requires
                s == 0 || s == 7 || s == 14 || s == 21 || s == 28,
                xu == x as u32,
                v == x >> s,
                low == (v & 0x7f) as u8,
                up == v >> 7u32,
                (low & 0x40 == 0 && up == 0) || (low & 0x40 != 0 && up == -1),
                result == xu & (((1u32 << s) - 1) as u32),
        ;
        assert(s == 28 ==> result | (((low & 0x7f) as u32) << s) == xu) by (bit_vector)
            requires
                s == 0 || s == 7 || s == 14 || s == 21 || s == 28,
                xu == x as u32,
                v == x >> s,
                low == (v & 0x7f) as u8,
                result == xu & (((1u32 << s) - 1) as u32),
        ;
    } else {
        assert(s <= 21 && result | (((low & 0x7f) as u32) << s) == xu & (((1u32 << ((s
            + 7) as u32)) - 1) as u32) && up == x >> ((s + 7) as u32)) by (bit_vector)
            requires
                s == 0 || s == 7 || s == 14 || s == 21 || s == 28,
                xu == x as u32,
                v == x >> s,
                low == (v & 0x7f) as u8,
                up == v >> 7u32,
                !((low & 0x40 == 0 && up == 0) || (low & 0x40 != 0 && up == -1)),
                result == xu & (((1u32 << s) - 1) as u32),
        ;
        lemma_encode_shrinks(v);
        let tail = leb_encode(up);
        assert(enc =~= seq![low | 0x80] + tail);
        assert(b.subrange(at + 1, at + 1 + tail.len()) =~= tail) by {
            assert forall|j: int| 0 <= j < tail.len() implies b[at + 1 + j] == tail[j] by {
                assert(b.subrange(at, at + enc.len())[j + 1] == enc[j + 1]);
            }
        }
        lemma_leb_one(b, at + 1, x, up, leb_join(result, byte, shift), shift + 7);
    }
}

/// Compressed numbers are read back as they were written.
pub proof fn law_leb_round_trip(vs: Seq<i32>)
    ensures
        leb_many(leb_encode_all(vs), 0, vs.len()) == Some(
            (Seq::new(vs.len(), |k: int| vs[k] as u32), leb_encode_all(vs).len() as int),
        ),
{
    assert(leb_encode_all(vs).take(leb_encode_all(vs).len() as int) =~= leb_encode_all(vs));
    lemma_leb_many(vs, leb_encode_all(vs));
}

proof fn lemma_leb_many(vs: Seq<i32>, b: Seq<u8>)
    requires
        leb_encode_all(vs).len() <= b.len(),
        b.take(leb_encode_all(vs).len() as int) == leb_encode_all(vs),
    ensures
        leb_many(b, 0, vs.len()) == Some(
            (Seq::new(vs.len(), |k: int| vs[k] as u32), leb_encode_all(vs).len() as int),
        ),
    decreases vs.len(),
{
    if vs.len() == 0 {
        assert(Seq::new(vs.len(), |k: int| vs[k] as u32) =~= Seq::empty());
    } else {
        let head = vs.drop_last();
        let x = vs.last();
        let h = leb_encode_all(head);
        let e = leb_encode(x);
        let all = leb_encode_all(vs);
        assert(b.take(h.len() as int) =~= h) by {
            assert forall|j: int| 0 <= j < h.len() implies b[j] == h[j] by {
                assert(b.take(all.len() as int)[j] == all[j]);
            }
        }
        lemma_leb_many(head, b);
        assert(b.subrange(h.len() as int, (h.len() + e.len()) as int) =~= e) by {
            assert forall|j: int| 0 <= j < e.len() implies b[h.len() + j] == e[j] by {
                assert(b.take(all.len() as int)[h.len() + j] == all[h.len() + j]);
            }
        }
        assert(x >> 0u32 == x && 0u32 == (x as u32) & (((1u32 << 0u32) - 1) as u32)) by (bit_vector);
        lemma_leb_one(b, h.len() as int, x, x, 0, 0);
        assert(Seq::new(vs.len(), |k: int| vs[k] as u32) =~= Seq::new(
            head.len(),
            |k: int| head[k] as u32,
        ).push(x as u32));
    }
}

/// The bytes of a number give the number back, in each width that holds it.
pub proof fn law_decoded(v: i32)
    ensures
        <i32 as LeBytes>::decoded(le_bytes(v as u32)) == v,
        -32768 <= v < 32768 ==> <i16 as LeBytes>::decoded(le_bytes(v as u32)) == v,
        -128 <= v < 128 ==> <i8 as LeBytes>::decoded(le_bytes(v as u32)) == v,
{
    let u = v as u32;
    let b = le_bytes(u);
    assert(le_u32(b) == u);
    assert((v as u32) as i32 == v && (-32768 <= v < 32768 ==> ((((v as u32) % 65536) as u16) as i16)
        == v) && (-128 <= v < 128 ==> ((((v as u32) % 256) as u8) as i8) == v)) by (bit_vector);
    assert(b[0] + 256 * b[1] == u % 65536);
}

/// Where too few bytes are there for some numbers, there are too few for more.
proof fn lemma_many_none(b: Seq<u8>, at: int, m: nat, n: nat)
    requires
        m <= n,
        leb_many(b, at, m) is None,
    ensures
        leb_many(b, at, n) is None,
    decreases n,
{
    if m < n {
        lemma_many_none(b, at, m, (n - 1) as nat);
    }
}

/// When reading a compressed block of `n` numbers succeeds, and which error
/// comes when it does not.
pub open spec fn leb_outcome(
    all: Seq<u8>,
    n: nat,
    r: Result<(), FormatError>,
    what: Seq<char>,
) -> bool {
    let b = all.skip(21);
    let declared = le_u32(all.skip(17));
    let read = leb_many(leb_payload(b, declared), 0, n);
    if all.len() < 17 || all.take(17) != leb128_magic() {
        fails(r, what, "missing COMPRESSED_LEB128 marker (section is not compressed)"@)
    } else if all.len() < 21 {
        fails(r, "truncated net"@, "truncated net"@)
    } else if read is None {
        if declared <= b.len() {
            fails(r, what, "LEB128 payload longer than declared"@)
        } else {
            fails(r, what, "LEB128 payload ended too early"@)
        }
    } else if read.unwrap().1 != declared {
        fails(r, what, "LEB128 payload shorter than declared"@)
    } else {
        r is Ok
    }
}

} // verus!
