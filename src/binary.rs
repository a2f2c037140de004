use vstd::prelude::*;

verus! {

/// `128` raised to `k`.
pub open spec fn p128(k: nat) -> nat
    decreases k,
{
    if k == 0 {
        1
    } else {
        128 * p128((k - 1) as nat)
    }
}

/// `256` raised to `k`.
pub open spec fn p256(k: nat) -> nat
    decreases k,
{
    if k == 0 {
        1
    } else {
        256 * p256((k - 1) as nat)
    }
}

/// The variable-length encoding of `v`: seven bits per byte, low bits first,
/// the high bit set on every byte but the last.
pub open spec fn uvarint_bytes(v: nat) -> Seq<u8>
    decreases v,
{
    if v < 128 {
        seq![v as u8]
    } else {
        seq![(v % 128 + 128) as u8] + uvarint_bytes(v / 128)
    }
}

/// A length-prefixed byte string.
pub open spec fn string_bytes(b: Seq<u8>) -> Seq<u8> {
    uvarint_bytes(b.len()) + b
}

/// The `width` low bytes of `v`, least significant first.
pub open spec fn le_bytes(v: nat, width: nat) -> Seq<u8>
    decreases width,
{
    if width == 0 {
        Seq::empty()
    } else {
        seq![(v % 256) as u8] + le_bytes(v / 256, (width - 1) as nat)
    }
}

/// The number that little-endian bytes `s` stand for.
pub open spec fn le_value(s: Seq<u8>) -> nat
    decreases s.len(),
{
    if s.len() == 0 {
        0
    } else {
        s[0] as nat + 256 * le_value(s.drop_first())
    }
}

/// Reads a variable-length integer of at most `fuel` bytes at `pos`:
/// its value (unbounded) and the position after it.
pub open spec fn uvarint_at(s: Seq<u8>, pos: int, fuel: nat) -> Option<(nat, int)>
    decreases fuel,
{
    if fuel == 0 || pos < 0 || pos >= s.len() {
        None
    } else if s[pos] < 128 {
        Some((s[pos] as nat, pos + 1))
    } else {
        match uvarint_at(s, pos + 1, (fuel - 1) as nat) {
            Some((v, e)) => Some(((s[pos] - 128) as nat + 128 * v, e)),
            None => None,
        }
    }
}

/// A variable-length integer at `pos`: at most ten bytes, and a value that fits `u64`.
pub open spec fn parse_uvarint(s: Seq<u8>, pos: int) -> Option<(u64, int)> {
    match uvarint_at(s, pos, 10) {
        Some((v, e)) => if v <= u64::MAX {
            Some((v as u64, e))
        } else {
            None
        },
        None => None,
    }
}

/// `n` raw bytes at `pos`.
pub open spec fn parse_bytes(s: Seq<u8>, pos: int, n: nat) -> Option<(Seq<u8>, int)> {
    if 0 <= pos && pos + n <= s.len() {
        Some((s.subrange(pos, pos + n), pos + n))
    } else {
        None
    }
}

/// A little-endian integer of `width` bytes at `pos`.
pub open spec fn parse_le(s: Seq<u8>, pos: int, width: nat) -> Option<(nat, int)> {
    match parse_bytes(s, pos, width) {
        Some((b, e)) => Some((le_value(b), e)),
        None => None,
    }
}

/// A length-prefixed byte string at `pos`.
pub open spec fn parse_string(s: Seq<u8>, pos: int) -> Option<(Seq<u8>, int)> {
    match parse_uvarint(s, pos) {
        Some((n, p)) => parse_bytes(s, p, n as nat),
        None => None,
    }
}

/// `s` holds `w` from `pos` on.
pub open spec fn holds_at(s: Seq<u8>, pos: int, w: Seq<u8>) -> bool {
    0 <= pos && pos + w.len() <= s.len() && s.subrange(pos, pos + w.len()) == w
}

pub proof fn lemma_subrange_join(s: Seq<u8>, a: int, b: int, c: int)
    requires
        0 <= a <= b <= c <= s.len(),
    ensures
        s.subrange(a, b) + s.subrange(b, c) == s.subrange(a, c),
{
    assert(s.subrange(a, b) + s.subrange(b, c) =~= s.subrange(a, c));
}

pub proof fn lemma_p128_mono(i: nat, j: nat)
    requires
        i <= j,
    ensures
        p128(i) <= p128(j),
    decreases j,
{
    if i < j {
        lemma_p128_mono(i, (j - 1) as nat);
    }
}

pub proof fn lemma_uvarint_len(v: nat, k: nat)
    requires
        1 <= k,
        v < p128(k),
    ensures
        uvarint_bytes(v).len() <= k,
    decreases v,
{
    if v >= 128 {
        if k == 1 {
            assert(p128(1) == 128) by {
                reveal_with_fuel(p128, 2);
            }
        }
        assert(v / 128 < p128((k - 1) as nat));
        lemma_uvarint_len(v / 128, (k - 1) as nat);
    }
}

pub proof fn lemma_u64_uvarint_len(v: u64)
    ensures
        1 <= uvarint_bytes(v as nat).len() <= 10,
{
    assert(p128(10) == 0x400000000000000000) by {
        reveal_with_fuel(p128, 11);
    }
    lemma_uvarint_len(v as nat, 10);
}

pub proof fn lemma_holds_at_split(s: Seq<u8>, pos: int, a: Seq<u8>, b: Seq<u8>)
    requires
        holds_at(s, pos, a + b),
    ensures
        holds_at(s, pos, a),
        holds_at(s, pos + a.len(), b),
{
    let w = s.subrange(pos, pos + (a + b).len());
    assert(s.subrange(pos, pos + a.len()) =~= w.subrange(0, a.len() as int));
    assert(w.subrange(0, a.len() as int) =~= a);
    assert(s.subrange(pos + a.len(), pos + a.len() + b.len()) =~= w.subrange(
        a.len() as int,
        (a.len() + b.len()) as int,
    ));
    assert(w.subrange(a.len() as int, (a.len() + b.len()) as int) =~= b);
}

pub proof fn lemma_uvarint_at(s: Seq<u8>, pos: int, v: nat, fuel: nat)
    requires
        holds_at(s, pos, uvarint_bytes(v)),
        uvarint_bytes(v).len() <= fuel,
    ensures
        uvarint_at(s, pos, fuel) == Some((v, pos + uvarint_bytes(v).len())),
    decreases v,
{
    assert(s[pos] == uvarint_bytes(v)[0]);
    if v >= 128 {
        lemma_holds_at_split(s, pos, seq![(v % 128 + 128) as u8], uvarint_bytes(v / 128));
        lemma_uvarint_at(s, pos + 1, v / 128, (fuel - 1) as nat);
    }
}

/// Reading back the encoding of `v` gives `v` and the position after it.
pub proof fn lemma_parse_uvarint(s: Seq<u8>, pos: int, v: u64)
    requires
        holds_at(s, pos, uvarint_bytes(v as nat)),
    ensures
        parse_uvarint(s, pos) == Some((v, pos + uvarint_bytes(v as nat).len())),
{
    lemma_u64_uvarint_len(v);
    lemma_uvarint_at(s, pos, v as nat, 10);
}

pub proof fn lemma_parse_bytes(s: Seq<u8>, pos: int, b: Seq<u8>)
    requires
        holds_at(s, pos, b),
    ensures
        parse_bytes(s, pos, b.len()) == Some((b, pos + b.len())),
{
}

pub proof fn lemma_parse_string(s: Seq<u8>, pos: int, b: Seq<u8>)
    requires
        holds_at(s, pos, string_bytes(b)),
        b.len() <= u64::MAX,
    ensures
        parse_string(s, pos) == Some((b, pos + string_bytes(b).len())),
{
    lemma_holds_at_split(s, pos, uvarint_bytes(b.len()), b);
    lemma_parse_uvarint(s, pos, b.len() as u64);
}

pub proof fn lemma_le_round_trip(v: nat, width: nat)
    requires
        v < p256(width),
    ensures
        le_value(le_bytes(v, width)) == v,
        le_bytes(v, width).len() == width,
    decreases width,
{
    if width > 0 {
        lemma_le_round_trip(v / 256, (width - 1) as nat);
        assert(le_bytes(v, width).drop_first() =~= le_bytes(v / 256, (width - 1) as nat));
    }
}

pub proof fn lemma_le_bound(s: Seq<u8>)
    ensures
        le_value(s) < p256(s.len()),
    decreases s.len(),
{
    if s.len() > 0 {
        lemma_le_bound(s.drop_first());
    }
}

/// Reading back `width` little-endian bytes of `v` gives `v`.
pub proof fn lemma_parse_le(s: Seq<u8>, pos: int, v: nat, width: nat)
    requires
        v < p256(width),
        holds_at(s, pos, le_bytes(v, width)),
    ensures
        parse_le(s, pos, width) == Some((v, pos + width)),
{
    lemma_le_round_trip(v, width);
}

pub proof fn lemma_p256_values()
    ensures
        p256(1) == 0x100,
        p256(2) == 0x10000,
        p256(4) == 0x100000000,
        p256(8) == 0x10000000000000000,
{
    reveal_with_fuel(p256, 9);
}

/// Errors met while reading bytes.
#[derive(Debug, PartialEq, Eq, Clone, Copy, Structural)]
pub enum Error {
    /// The input ended before the value did.
    UnexpectedEof,
    /// A variable-length integer ran over ten bytes or over `u64`.
    Overflow,
    /// A column type code that no storage knows.
    UnknownType,
    /// The block header does not have its fixed layout.
    InvalidHeader,
    /// A column name that is not UTF-8.
    InvalidName,
}

/// A growable output buffer.
pub struct Encoder {
    buffer: Vec<u8>,
}

impl View for Encoder {
    type V = Seq<u8>;

    closed spec fn view(&self) -> Seq<u8> {
        self.buffer@
    }
}

impl Encoder {
    pub fn new() -> (r: Encoder)
        ensures
            r@ == Seq::<u8>::empty(),
    {
        Encoder { buffer: Vec::new() }
    }

    pub fn get_buffer_ref(&self) -> (r: &Vec<u8>)
        ensures
            r@ == self@,
    {
        &self.buffer
    }

    pub fn get_buffer(self) -> (r: Vec<u8>)
        ensures
            r@ == self@,
    {
        self.buffer
    }

    pub fn uvarint(&mut self, v: u64)
        ensures
            final(self)@ == old(self)@ + uvarint_bytes(v as nat),
    {
        let mut x: u64 = v;
        while x >= 128
            invariant
                self@ + uvarint_bytes(x as nat) == old(self)@ + uvarint_bytes(v as nat),
            decreases x,
        {
            let ghost before = self@;
            self.buffer.push((x % 128 + 128) as u8);
            assert(self@ + uvarint_bytes((x / 128) as nat) =~= before + uvarint_bytes(x as nat));
            x = x / 128;
        }
        let ghost before = self@;
        self.buffer.push(x as u8);
        assert(self@ =~= before + uvarint_bytes(x as nat));
    }

    pub fn write_bytes(&mut self, b: &[u8])
        ensures
            final(self)@ == old(self)@ + b@,
    {
        let mut i: usize = 0;
        while i < b.len()
            invariant
                i <= b@.len(),
                self@ == old(self)@ + b@.subrange(0, i as int),
            decreases b@.len() - i,
        {
            self.buffer.push(b[i]);
            i = i + 1;
            assert(self@ =~= old(self)@ + b@.subrange(0, i as int));
        }
        assert(b@.subrange(0, i as int) =~= b@);
    }

    /// Writes a length prefix, then the bytes.
    pub fn string(&mut self, b: &[u8])
        ensures
            final(self)@ == old(self)@ + string_bytes(b@),
    {
        self.uvarint(b.len() as u64);
        self.write_bytes(b);
        assert(final(self)@ =~= old(self)@ + string_bytes(b@));
    }

    /// Writes the `width` low bytes of `v`, least significant first.
    pub fn write_le(&mut self, v: u64, width: usize)
        ensures
            final(self)@ == old(self)@ + le_bytes(v as nat, width as nat),
    {
        let mut x: u64 = v;
        let mut i: usize = 0;
        while i < width
            invariant
                i <= width,
                self@ + le_bytes(x as nat, (width - i) as nat) == old(self)@ + le_bytes(
                    v as nat,
                    width as nat,
                ),
            decreases width - i,
        {
            let ghost before = self@;
            self.buffer.push((x % 256) as u8);
            assert(self@ + le_bytes((x / 256) as nat, (width - i - 1) as nat) =~= before
                + le_bytes(x as nat, (width - i) as nat));
            x = x / 256;
            i = i + 1;
        }
        assert(self@ + le_bytes(x as nat, 0) =~= self@);
    }
}

/// A cursor over bytes held in memory.
pub struct Reader {
    data: Vec<u8>,
    pos: usize,
}

impl Reader {
    pub closed spec fn data(&self) -> Seq<u8> {
        self.data@
    }

    pub closed spec fn pos(&self) -> int {
        self.pos as int
    }

    pub open spec fn wf(&self) -> bool {
        0 <= self.pos() <= self.data().len() <= usize::MAX
    }

    pub fn new(data: Vec<u8>) -> (r: Reader)
        ensures
            r.wf(),
            r.data() == data@,
            r.pos() == 0,
    {
        let _ = data.len();
        Reader { data, pos: 0 }
    }

    /// Reads a length-prefixed byte string.
    pub fn read_string(&mut self) -> (r: Result<Vec<u8>, Error>)
        requires
            old(self).wf(),
        ensures
            final(self).wf(),
            final(self).data() == old(self).data(),
            match parse_string(old(self).data(), old(self).pos()) {
                Some((b, e)) => r.is_ok() && r.unwrap()@ == b && final(self).pos() == e,
                None => r.is_err(),
            },
    {
        let n = self.read_uvarint()?;
        if n > self.data.len() as u64 {
            return Err(Error::UnexpectedEof);
        }
        self.read_bytes(n as usize)
    }

    /// Position of the next byte to read.
    pub fn position(&self) -> (r: usize)
        ensures
            r == self.pos(),
    {
        self.pos
    }

    pub fn read_uvarint(&mut self) -> (r: Result<u64, Error>)
        requires
            old(self).wf(),
        ensures
            final(self).wf(),
            final(self).data() == old(self).data(),
            match parse_uvarint(old(self).data(), old(self).pos()) {
                Some((v, e)) => r == Ok::<u64, Error>(v) && final(self).pos() == e,
                None => r.is_err(),
            },
    {
        let ghost s = self.data@;
        let ghost start = self.pos as int;
        let mut acc: u128 = 0;
        let mut mult: u128 = 1;
        let mut i: usize = 0;
        let mut p: usize = self.pos;
        assert(p128(10) == 0x400000000000000000) by {
            reveal_with_fuel(p128, 11);
        }
        while i < 10
            invariant
                s == self.data@,
                s == old(self).data@,
                self.pos <= s.len(),
                self.pos == start,
                self.pos == old(self).pos,
                i <= 10,
                p == start + i,
                mult == p128(i as nat),
                acc < mult,
                p128(10) == 0x400000000000000000,
                uvarint_at(s, start, 10) == match uvarint_at(s, p as int, (10 - i) as nat) {
                    Some((v, e)) => Some(((acc + mult * v) as nat, e)),
                    None => None::<(nat, int)>,
                },
            decreases 10 - i,
        {
            if p >= self.data.len() {
                return Err(Error::UnexpectedEof);
            }
            let b = self.data[p];
            proof {
                lemma_p128_mono(i as nat, 9);
                lemma_p128_mono((i + 1) as nat, 10);
            }
            assert(mult * 128 == p128((i + 1) as nat));
            if b < 128 {
                assert(acc + mult * (b as u128) < mult * 128) by (nonlinear_arith)
                    requires
                        acc < mult,
                        b < 128,
                ;
                let value = acc + mult * (b as u128);
                if value > u64::MAX as u128 {
                    return Err(Error::Overflow);
                }
                self.pos = p + 1;
                return Ok(value as u64);
            }
            let ghost bv = (b - 128) as nat;
            proof {
                if let Some((v, e)) = uvarint_at(s, p + 1, (9 - i) as nat) {
                    assert(mult * (bv + 128 * v) == mult * bv + (mult * 128) * v)
                        by (nonlinear_arith);
                }
            }
            assert(acc + mult * ((b - 128) as u128) < mult * 128) by (nonlinear_arith)
                requires
                    acc < mult,
                    b < 256,
                    b >= 128,
            ;
            acc = acc + mult * ((b - 128) as u128);
            mult = mult * 128;
            i = i + 1;
            p = p + 1;
        }
        Err(Error::Overflow)
    }

    pub fn read_bytes(&mut self, n: usize) -> (r: Result<Vec<u8>, Error>)
        requires
            old(self).wf(),
        ensures
            final(self).wf(),
            final(self).data() == old(self).data(),
            match parse_bytes(old(self).data(), old(self).pos(), n as nat) {
                Some((b, e)) => r.is_ok() && r.unwrap()@ == b && final(self).pos() == e,
                None => r.is_err(),
            },
    {
        if n > self.data.len() - self.pos {
            return Err(Error::UnexpectedEof);
        }
        let mut out: Vec<u8> = Vec::with_capacity(n);
        let mut i: usize = 0;
        while i < n
            invariant
                self.pos + n <= self.data@.len(),
                self.data@.len() <= usize::MAX,
                self.data == old(self).data,
                self.pos == old(self).pos,
                i <= n,
                out@ == self.data@.subrange(self.pos as int, self.pos + i),
            decreases n - i,
        {
            out.push(self.data[self.pos + i]);
            i = i + 1;
            assert(out@ =~= self.data@.subrange(self.pos as int, self.pos + i));
        }
        self.pos = self.pos + n;
        Ok(out)
    }

    /// Reads a little-endian integer of `width` bytes.
    pub fn read_le(&mut self, width: usize) -> (r: Result<u64, Error>)
        requires
            old(self).wf(),
            width <= 8,
        ensures
            final(self).wf(),
            final(self).data() == old(self).data(),
            match parse_le(old(self).data(), old(self).pos(), width as nat) {
                Some((v, e)) => r == Ok::<u64, Error>(v as u64) && final(self).pos() == e,
                None => r.is_err(),
            },
    {
        let b = self.read_bytes(width)?;
        let mut acc: u64 = 0;
        let mut j: usize = width;
        proof {
            lemma_p256_values();
        }
        while j > 0
            invariant
                b@.len() == width,
                width <= 8,
                j <= width,
                acc == le_value(b@.subrange(j as int, width as int)),
                p256(8) == 0x10000000000000000,
            decreases j,
        {
            proof {
                lemma_le_bound(b@.subrange(j as int, width as int));
                lemma_p256_mono((width - j) as nat, 7);
                assert(b@.subrange(j - 1, width as int).drop_first() =~= b@.subrange(
                    j as int,
                    width as int,
                ));
            }
            assert(acc * 256 + b[j - 1] < 0x10000000000000000) by (nonlinear_arith)
                requires
                    acc < p256(7),
                    p256(8) == 256 * p256(7),
                    p256(8) == 0x10000000000000000,
                    b[j - 1] < 256,
            ;
            acc = acc * 256 + b[j - 1] as u64;
            j = j - 1;
        }
        assert(b@.subrange(0, width as int) =~= b@);
        Ok(acc)
    }
}

pub proof fn lemma_p256_mono(i: nat, j: nat)
    requires
        i <= j,
    ensures
        p256(i) <= p256(j),
    decreases j,
{
    if i < j {
        lemma_p256_mono(i, (j - 1) as nat);
    }
}

} // verus!
