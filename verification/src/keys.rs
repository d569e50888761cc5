//! Curve25519 keys, their byte and hexadecimal forms, and the derivation of a
//! public key from a secret one.

use vstd::prelude::*;

verus! {

/// Value of a big-endian sequence of bytes.
pub open spec fn be_value(bytes: Seq<u8>) -> nat
    decreases bytes.len(),
{
    if bytes.len() == 0 {
        0
    } else {
        be_value(bytes.drop_last()) * 256 + bytes.last() as nat
    }
}

/// The `width` low-order bytes of `value`, most significant first.
pub open spec fn be_bytes(value: nat, width: nat) -> Seq<u8>
    decreases width,
{
    if width == 0 {
        Seq::empty()
    } else {
        be_bytes(value / 256, (width - 1) as nat).push((value % 256) as u8)
    }
}

/// 256 to the power `n`.
pub open spec fn pow256(n: nat) -> nat
    decreases n,
{
    if n == 0 {
        1
    } else {
        256 * pow256((n - 1) as nat)
    }
}

/// A value is written with as many bytes as asked for.
pub proof fn lemma_be_bytes_len(value: nat, width: nat)
    ensures
        be_bytes(value, width).len() == width,
    decreases width,
{
    if width > 0 {
        lemma_be_bytes_len(value / 256, (width - 1) as nat);
    }
}

/// Reading back the bytes of a value gives the value, as far as it fits.
pub proof fn lemma_be_value_of_bytes(value: nat, width: nat)
    ensures
        be_value(be_bytes(value, width)) == value % pow256(width),
    decreases width,
{
    if width == 0 {
    } else {
        let w = (width - 1) as nat;
        let rest = be_bytes(value / 256, w);
        lemma_be_value_of_bytes(value / 256, w);
        assert(be_bytes(value, width).drop_last() =~= rest);
        let p = pow256(w);
        lemma_pow256_positive(w);
        assert(be_value(be_bytes(value, width)) == ((value / 256) % p) * 256 + value % 256);
        lemma_mod_split(value, p);
    }
}

/// A power of 256 is positive.
pub proof fn lemma_pow256_positive(n: nat)
    ensures
        pow256(n) > 0,
    decreases n,
{
    if n > 0 {
        lemma_pow256_positive((n - 1) as nat);
    }
}

proof fn lemma_mod_split(value: nat, p: nat)
    requires
        p > 0,
    ensures
        ((value / 256) % p) * 256 + value % 256 == value % (256 * p),
{
    let q = value / 256;
    let r = value % 256;
    let a = q / p;
    let b = q % p;
    assert(q == a * p + b) by (nonlinear_arith)
        requires
            a == q / p,
            b == q % p,
            p > 0,
    ;
    assert(value == 256 * q + r);
    assert(value == a * (256 * p) + (b * 256 + r)) by (nonlinear_arith)
        requires
            value == 256 * q + r,
            q == a * p + b,
    ;
    assert(0 <= b * 256 + r < 256 * p) by (nonlinear_arith)
        requires
            0 <= b < p,
            0 <= r < 256,
    ;
    vstd::arithmetic::div_mod::lemma_fundamental_div_mod_converse(
        value as int,
        (256 * p) as int,
        a as int,
        (b * 256 + r) as int,
    );
}

/// The bytes of the value of a sequence are the sequence.
pub proof fn lemma_be_bytes_of_value(bytes: Seq<u8>)
    ensures
        be_bytes(be_value(bytes), bytes.len()) == bytes,
        be_value(bytes) < pow256(bytes.len()),
    decreases bytes.len(),
{
    if bytes.len() == 0 {
        assert(be_bytes(be_value(bytes), 0) =~= bytes);
    } else {
        let front = bytes.drop_last();
        lemma_be_bytes_of_value(front);
        let v = be_value(bytes);
        assert(v / 256 == be_value(front));
        assert(v % 256 == bytes.last() as nat);
        assert(be_bytes(v, bytes.len()) =~= bytes);
    }
}


/// Value of one hexadecimal digit, of either case.
pub open spec fn hex_digit_value(c: char) -> Option<nat> {
    let n = c as u32;
    if 48 <= n <= 57 {
        Some((n - 48) as nat)
    } else if 97 <= n <= 102 {
        Some((n - 87) as nat)
    } else if 65 <= n <= 70 {
        Some((n - 55) as nat)
    } else {
        None
    }
}

/// The lower-case hexadecimal digit of a value below sixteen.
pub open spec fn hex_digit_char(v: nat) -> char {
    if v < 10 {
        ((48 + v) as u8) as char
    } else {
        ((87 + v) as u8) as char
    }
}

/// Lower-case hexadecimal text of a sequence of bytes, two digits per byte.
pub open spec fn hex_text(bytes: Seq<u8>) -> Seq<char> {
    Seq::new(
        2 * bytes.len(),
        |i: int|
            if i % 2 == 0 {
                hex_digit_char(bytes[i / 2] as nat / 16)
            } else {
                hex_digit_char(bytes[i / 2] as nat % 16)
            },
    )
}

/// Whether a text is an even number of hexadecimal digits.
pub open spec fn is_hex(text: Seq<char>) -> bool {
    &&& text.len() % 2 == 0
    &&& forall|i: int| 0 <= i < text.len() ==> (#[trigger] hex_digit_value(text[i])) is Some
}

/// The bytes that a hexadecimal text stands for.
pub open spec fn hex_bytes(text: Seq<char>) -> Seq<u8> {
    Seq::new(
        text.len() / 2,
        |i: int|
            (hex_digit_value(text[2 * i]).unwrap() * 16 + hex_digit_value(
                text[2 * i + 1],
            ).unwrap()) as u8,
    )
}

/// Decoding the hexadecimal text of some bytes gives the bytes back.
pub proof fn lemma_hex_round_trip(bytes: Seq<u8>)
    ensures
        is_hex(hex_text(bytes)),
        hex_bytes(hex_text(bytes)) == bytes,
{
    let text = hex_text(bytes);
    assert forall|i: int| 0 <= i < text.len() implies (#[trigger] hex_digit_value(text[i])) is Some by {
        let b = bytes[i / 2] as nat;
        assert(b / 16 < 16 && b % 16 < 16);
    }
    assert forall|i: int| 0 <= i < bytes.len() implies hex_bytes(text)[i] == bytes[i] by {
        let b = bytes[i] as nat;
        assert((2 * i) / 2 == i && (2 * i + 1) / 2 == i);
        assert(text[2 * i] == hex_digit_char(b / 16));
        assert(text[2 * i + 1] == hex_digit_char(b % 16));
        assert(hex_digit_value(hex_digit_char(b / 16)) == Some(b / 16));
        assert(hex_digit_value(hex_digit_char(b % 16)) == Some(b % 16));
    }
    assert(hex_bytes(text) =~= bytes);
}

/// The two halves of a 32-byte key as numbers, the first byte most significant.
pub open spec fn halves_of_bytes(bytes: Seq<u8>) -> (nat, nat) {
    (be_value(bytes.subrange(0, 16)), be_value(bytes.subrange(16, 32)))
}

/// The 32 bytes of a key given by its two halves.
pub open spec fn bytes_of_halves(hi: nat, lo: nat) -> Seq<u8> {
    be_bytes(hi, 16) + be_bytes(lo, 16)
}

/// The powers of 256 that bound sixteen and fifteen bytes.
pub proof fn lemma_pow256_16()
    ensures
        pow256(16) == 0x1_0000_0000_0000_0000_0000_0000_0000_0000,
        pow256(15) == 0x100_0000_0000_0000_0000_0000_0000_0000,
{
    reveal_with_fuel(pow256, 17);
}

/// The bytes of a key's halves give the halves back, and the other way round.
pub proof fn lemma_halves_round_trip(hi: u128, lo: u128)
    ensures
        bytes_of_halves(hi as nat, lo as nat).len() == 32,
        halves_of_bytes(bytes_of_halves(hi as nat, lo as nat)) == (hi as nat, lo as nat),
{
    let bytes = bytes_of_halves(hi as nat, lo as nat);
    lemma_be_bytes_len(hi as nat, 16);
    lemma_be_bytes_len(lo as nat, 16);
    assert(bytes.subrange(0, 16) =~= be_bytes(hi as nat, 16));
    assert(bytes.subrange(16, 32) =~= be_bytes(lo as nat, 16));
    lemma_be_value_of_bytes(hi as nat, 16);
    lemma_be_value_of_bytes(lo as nat, 16);
    lemma_pow256_16();
}

/// The halves of 32 bytes fit 128 bits each, and their bytes are the 32 bytes.
pub proof fn lemma_bytes_round_trip(bytes: Seq<u8>)
    requires
        bytes.len() == 32,
    ensures
        halves_of_bytes(bytes).0 <= u128::MAX,
        halves_of_bytes(bytes).1 <= u128::MAX,
        bytes_of_halves(halves_of_bytes(bytes).0, halves_of_bytes(bytes).1) == bytes,
{
    lemma_be_bytes_of_value(bytes.subrange(0, 16));
    lemma_be_bytes_of_value(bytes.subrange(16, 32));
    lemma_pow256_16();
    assert(bytes.subrange(0, 16) + bytes.subrange(16, 32) =~= bytes);
}

/// Reads sixteen bytes, most significant first, as a number.
fn be_read(bytes: &[u8; 32], from: usize) -> (value: u128)
    requires
        from == 0 || from == 16,
    ensures
        value as nat == be_value(bytes@.subrange(from as int, from + 16)),
{
    let mut acc: u128 = 0;
    let mut i: usize = 0;
    proof {
        lemma_pow256_16();
    }
    while i < 16
        invariant
            i <= 16,
            from == 0 || from == 16,
            acc as nat == be_value(bytes@.subrange(from as int, from + i)),
            (acc as nat) < pow256(i as nat),
            pow256(16) == 0x1_0000_0000_0000_0000_0000_0000_0000_0000,
        decreases 16 - i,
    {
        let b: u8 = bytes[from + i];
        proof {
            let next = bytes@.subrange(from as int, from + i + 1);
            assert(next.drop_last() =~= bytes@.subrange(from as int, from + i));
            assert(next.last() == b);
            lemma_pow256_monotonic((i + 1) as nat, 16);
            assert(pow256((i + 1) as nat) == 256 * pow256(i as nat));
        }
        acc = acc * 256 + b as u128;
        i = i + 1;
    }
    acc
}

/// The powers of 256 rise.
pub proof fn lemma_pow256_monotonic(a: nat, b: nat)
    requires
        a <= b,
    ensures
        pow256(a) <= pow256(b),
    decreases b,
{
    if a < b {
        lemma_pow256_monotonic(a, (b - 1) as nat);
    }
}

/// Appends the sixteen bytes of a number, most significant first.
fn be_write(out: &mut Vec<u8>, value: u128)
    ensures
        final(out)@ == old(out)@ + be_bytes(value as nat, 16),
{
    let ghost before = out@;
    let mut divisor: u128 = 0x100_0000_0000_0000_0000_0000_0000_0000;
    let mut i: usize = 0;
    proof {
        lemma_pow256_16();
        assert(value as nat / pow256(16) == 0);
        assert(be_bytes(0, 0) =~= Seq::<u8>::empty());
        assert(before + be_bytes(0, 0) =~= before);
    }
    while i < 16
        invariant
            i <= 16,
            i < 16 ==> divisor as nat == pow256((15 - i) as nat),
            out@ == before + be_bytes(value as nat / pow256((16 - i) as nat), i as nat),
        decreases 16 - i,
    {
        proof {
            lemma_pow256_positive((15 - i) as nat);
        }
        let shifted: u128 = value / divisor;
        let b: u8 = (shifted % 256) as u8;
        proof {
            let d = pow256((15 - i) as nat);
            lemma_pow256_positive((15 - i) as nat);
            assert(pow256((16 - i) as nat) == 256 * d);
            vstd::arithmetic::div_mod::lemma_div_denominator(value as int, d as int, 256);
            assert(d * 256 == 256 * d) by (nonlinear_arith);
            assert(shifted as nat / 256 == value as nat / pow256((16 - i) as nat));
            assert(be_bytes(shifted as nat, (i + 1) as nat) == be_bytes(
                shifted as nat / 256,
                i as nat,
            ).push((shifted as nat % 256) as u8));
            assert(before + be_bytes(shifted as nat, (i + 1) as nat) =~= (before + be_bytes(
                shifted as nat / 256,
                i as nat,
            )).push(b));
        }
        out.push(b);
        if i < 15 {
            proof {
                assert(pow256((15 - i) as nat) == 256 * pow256((14 - i) as nat));
            }
            divisor = divisor / 256;
        }
        i = i + 1;
    }
    proof {
        assert(pow256(0) == 1) by {
            reveal_with_fuel(pow256, 1);
        }
        assert(value as nat / 1 == value as nat);
    }
}

/// Value of a hexadecimal digit, if the character is one.
fn hex_digit_of(c: char) -> (value: Option<u8>)
    ensures
        match value {
            Some(v) => hex_digit_value(c) == Some(v as nat),
            None => hex_digit_value(c) is None,
        },
{
    let n: u32 = c as u32;
    if 48 <= n && n <= 57 {
        Some((n - 48) as u8)
    } else if 97 <= n && n <= 102 {
        Some((n - 87) as u8)
    } else if 65 <= n && n <= 70 {
        Some((n - 55) as u8)
    } else {
        None
    }
}

/// The lower-case hexadecimal digit of a value below sixteen.
fn hex_char_of(v: u8) -> (c: char)
    requires
        v < 16,
    ensures
        c == hex_digit_char(v as nat),
{
    if v < 10 {
        (48 + v) as char
    } else {
        (87 + v) as char
    }
}

/// Decodes a text of hexadecimal digits into the bytes it stands for;
/// `None` when the text has an odd length or holds another character.
pub fn decode_hex(text: &Vec<char>) -> (bytes: Option<Vec<u8>>)
    ensures
        bytes is Some <==> is_hex(text@),
        bytes is Some ==> bytes.unwrap()@ == hex_bytes(text@),
{
    if text.len() % 2 != 0 {
        return None;
    }
    let mut out: Vec<u8> = Vec::new();
    let mut i: usize = 0;
    while i < text.len() / 2
        invariant
            text.len() % 2 == 0,
            i <= text.len() / 2,
            out@.len() == i,
            forall|j: int| 0 <= j < 2 * i ==> (#[trigger] hex_digit_value(text@[j])) is Some,
            forall|j: int| 0 <= j < i ==> out@[j] == #[trigger] hex_bytes(text@)[j],
        decreases text.len() / 2 - i,
    {
        let h = hex_digit_of(text[2 * i]);
        let l = hex_digit_of(text[2 * i + 1]);
        match (h, l) {
            (Some(h), Some(l)) => {
                out.push(h * 16 + l);
            },
            _ => {
                return None;
            },
        }
        i = i + 1;
    }
    proof {
        assert(out@ =~= hex_bytes(text@));
    }
    Some(out)
}

/// Appends the lower-case hexadecimal text of some bytes.
pub fn encode_hex(out: &mut Vec<char>, bytes: &Vec<u8>)
    ensures
        final(out)@ == old(out)@ + hex_text(bytes@),
{
    let ghost before = out@;
    let mut i: usize = 0;
    while i < bytes.len()
        invariant
            i <= bytes.len(),
            out@.len() == before.len() + 2 * i,
            forall|j: int| 0 <= j < before.len() ==> out@[j] == before[j],
            forall|j: int|
                0 <= j < 2 * i ==> out@[before.len() + j] == #[trigger] hex_text(bytes@)[j],
        decreases bytes.len() - i,
    {
        let b: u8 = bytes[i];
        let ghost mid = out@;
        out.push(hex_char_of(b / 16));
        out.push(hex_char_of(b % 16));
        proof {
            assert((2 * i) / 2 == i && (2 * i + 1) / 2 == i);
            assert(hex_text(bytes@)[2 * i] == hex_digit_char(b as nat / 16));
            assert(hex_text(bytes@)[2 * i + 1] == hex_digit_char(b as nat % 16));
        }
        i = i + 1;
    }
    proof {
        assert(out@ =~= before + hex_text(bytes@));
    }
}

/// What scalar multiplication of the Curve25519 base point by a secret gives,
/// both as 32 bytes.
pub uninterp spec fn public_key_of(secret: Seq<u8>) -> Seq<u8>;

/// `x25519_dalek::x25519` applied to the secret and the curve's base point:
/// the result is a function of the secret alone, and 32 bytes long.
#[verifier::external_body]
fn x25519_base(secret: &[u8; 32]) -> (public: [u8; 32])
    ensures
        public@ == public_key_of(secret@),
{
    x25519_dalek::x25519(*secret, x25519_dalek::X25519_BASEPOINT_BYTES)
}

/// A Curve25519 public key: 32 bytes, held as two numbers of which `hi` is
/// the first sixteen bytes read most significant first.
#[derive(Clone, Copy, Debug, PartialEq, Eq, PartialOrd, Ord, Hash, Structural)]
pub struct PublicKey {
    pub hi: u128,
    pub lo: u128,
}

/// A Curve25519 secret key, held as a `PublicKey` is.
#[derive(Clone, Copy, Debug, PartialEq, Eq, PartialOrd, Ord, Hash, Structural)]
pub struct SecretKey {
    pub hi: u128,
    pub lo: u128,
}

fn halves_from_bytes(bytes: &[u8; 32]) -> (halves: (u128, u128))
    ensures
        (halves.0 as nat, halves.1 as nat) == halves_of_bytes(bytes@),
{
    (be_read(bytes, 0), be_read(bytes, 16))
}

fn halves_to_vec(hi: u128, lo: u128) -> (bytes: Vec<u8>)
    ensures
        bytes@ == bytes_of_halves(hi as nat, lo as nat),
        bytes@.len() == 32,
{
    let mut out: Vec<u8> = Vec::new();
    be_write(&mut out, hi);
    be_write(&mut out, lo);
    proof {
        lemma_be_bytes_len(hi as nat, 16);
        lemma_be_bytes_len(lo as nat, 16);
        assert(out@ =~= bytes_of_halves(hi as nat, lo as nat));
    }
    out
}

fn halves_to_bytes(hi: u128, lo: u128) -> (bytes: [u8; 32])
    ensures
        bytes@ == bytes_of_halves(hi as nat, lo as nat),
{
    let v = halves_to_vec(hi, lo);
    let mut out: [u8; 32] = [0u8; 32];
    let mut i: usize = 0;
    while i < 32
        invariant
            i <= 32,
            v@.len() == 32,
            forall|j: int| 0 <= j < i ==> out@[j] == v@[j],
        decreases 32 - i,
    {
        out[i] = v[i];
        i = i + 1;
    }
    proof {
        assert(out@ =~= v@);
    }
    out
}

fn halves_from_hex(text: &Vec<char>) -> (halves: Option<(u128, u128)>)
    ensures
        halves is Some <==> text@.len() == 64 && is_hex(text@),
        halves is Some ==> (halves.unwrap().0 as nat, halves.unwrap().1 as nat) == halves_of_bytes(
            hex_bytes(text@),
        ),
{
    if text.len() != 64 {
        return None;
    }
    match decode_hex(text) {
        None => None,
        Some(bytes) => {
            let mut arr: [u8; 32] = [0u8; 32];
            let mut i: usize = 0;
            while i < 32
                invariant
                    i <= 32,
                    bytes@.len() == 32,
                    forall|j: int| 0 <= j < i ==> arr@[j] == bytes@[j],
                decreases 32 - i,
            {
                arr[i] = bytes[i];
                i = i + 1;
            }
            proof {
                assert(arr@ =~= bytes@);
            }
            Some(halves_from_bytes(&arr))
        },
    }
}

impl PublicKey {
    /// The key as 32 bytes.
    pub open spec fn spec_bytes(self) -> Seq<u8> {
        bytes_of_halves(self.hi as nat, self.lo as nat)
    }

    /// The key that 32 bytes make.
    pub open spec fn spec_from_bytes(bytes: Seq<u8>) -> PublicKey {
        PublicKey {
            hi: halves_of_bytes(bytes).0 as u128,
            lo: halves_of_bytes(bytes).1 as u128,
        }
    }

    /// The key as 64 lower-case hexadecimal digits.
    pub open spec fn spec_hex(self) -> Seq<char> {
        hex_text(self.spec_bytes())
    }

    /// The key that a text of 64 hexadecimal digits stands for.
    pub open spec fn spec_from_hex(text: Seq<char>) -> Option<PublicKey> {
        if text.len() == 64 && is_hex(text) {
            Some(Self::spec_from_bytes(hex_bytes(text)))
        } else {
            None
        }
    }

    /// Whether this key comes before the other when both are compared byte by byte.
    pub open spec fn spec_lt(self, other: PublicKey) -> bool {
        self.hi < other.hi || (self.hi == other.hi && self.lo < other.lo)
    }

    /// The key that 32 bytes make.
    pub fn from_bytes(bytes: &[u8; 32]) -> (key: PublicKey)
        ensures
            key == Self::spec_from_bytes(bytes@),
            key.spec_bytes() == bytes@,
    {
        proof {
            lemma_bytes_round_trip(bytes@);
        }
        let h = halves_from_bytes(bytes);
        PublicKey { hi: h.0, lo: h.1 }
    }

    /// The key as 32 bytes.
    pub fn to_bytes(&self) -> (bytes: [u8; 32])
        ensures
            bytes@ == self.spec_bytes(),
            Self::spec_from_bytes(bytes@) == *self,
    {
        proof {
            lemma_halves_round_trip(self.hi, self.lo);
        }
        halves_to_bytes(self.hi, self.lo)
    }

    /// Reads a key from exactly 64 hexadecimal digits of either case.
    pub fn from_hex_chars(text: &Vec<char>) -> (key: Option<PublicKey>)
        ensures
            key == Self::spec_from_hex(text@),
    {
        match halves_from_hex(text) {
            Some(h) => Some(PublicKey { hi: h.0, lo: h.1 }),
            None => None,
        }
    }

    /// Appends the key as 64 lower-case hexadecimal digits.
    pub fn write_hex(&self, out: &mut Vec<char>)
        ensures
            final(out)@ == old(out)@ + self.spec_hex(),
    {
        let bytes = halves_to_vec(self.hi, self.lo);
        encode_hex(out, &bytes);
    }

    /// Reads a key from exactly 64 hexadecimal digits of either case.
    pub fn from_hex(text: &str) -> (key: Option<PublicKey>)
        ensures
            key == Self::spec_from_hex(text@),
    {
        let chars = crate::text::chars_of(text);
        Self::from_hex_chars(&chars)
    }

    /// The key as 64 lower-case hexadecimal digits.
    pub fn to_hex(&self) -> (text: String)
        ensures
            text@ == self.spec_hex(),
    {
        let mut out: Vec<char> = Vec::new();
        self.write_hex(&mut out);
        crate::text::string_of(&out)
    }

    /// Whether this key comes before the other when both are compared byte by byte.
    pub fn lt(&self, other: &PublicKey) -> (r: bool)
        ensures
            r == self.spec_lt(*other),
    {
        self.hi < other.hi || (self.hi == other.hi && self.lo < other.lo)
    }
}

impl Default for PublicKey {
    fn default() -> (key: PublicKey)
        ensures
            key == (PublicKey { hi: 0, lo: 0 }),
    {
        PublicKey { hi: 0, lo: 0 }
    }
}

impl SecretKey {
    /// The key as 32 bytes.
    pub open spec fn spec_bytes(self) -> Seq<u8> {
        bytes_of_halves(self.hi as nat, self.lo as nat)
    }

    /// The key that 32 bytes make.
    pub open spec fn spec_from_bytes(bytes: Seq<u8>) -> SecretKey {
        SecretKey {
            hi: halves_of_bytes(bytes).0 as u128,
            lo: halves_of_bytes(bytes).1 as u128,
        }
    }

    /// The key as 64 lower-case hexadecimal digits.
    pub open spec fn spec_hex(self) -> Seq<char> {
        hex_text(self.spec_bytes())
    }

    /// The key that a text of 64 hexadecimal digits stands for.
    pub open spec fn spec_from_hex(text: Seq<char>) -> Option<SecretKey> {
        if text.len() == 64 && is_hex(text) {
            Some(Self::spec_from_bytes(hex_bytes(text)))
        } else {
            None
        }
    }

    /// The public key that belongs to this secret key.
    pub open spec fn spec_public(self) -> PublicKey {
        PublicKey::spec_from_bytes(public_key_of(self.spec_bytes()))
    }

    /// The key that 32 bytes make.
    pub fn from_bytes(bytes: &[u8; 32]) -> (key: SecretKey)
        ensures
            key == Self::spec_from_bytes(bytes@),
            key.spec_bytes() == bytes@,
    {
        proof {
            lemma_bytes_round_trip(bytes@);
        }
        let h = halves_from_bytes(bytes);
        SecretKey { hi: h.0, lo: h.1 }
    }

    /// The key as 32 bytes.
    pub fn to_bytes(&self) -> (bytes: [u8; 32])
        ensures
            bytes@ == self.spec_bytes(),
            Self::spec_from_bytes(bytes@) == *self,
    {
        proof {
            lemma_halves_round_trip(self.hi, self.lo);
        }
        halves_to_bytes(self.hi, self.lo)
    }

    /// Reads a key from exactly 64 hexadecimal digits of either case.
    pub fn from_hex_chars(text: &Vec<char>) -> (key: Option<SecretKey>)
        ensures
            key == Self::spec_from_hex(text@),
    {
        match halves_from_hex(text) {
            Some(h) => Some(SecretKey { hi: h.0, lo: h.1 }),
            None => None,
        }
    }

    /// Appends the key as 64 lower-case hexadecimal digits.
    pub fn write_hex(&self, out: &mut Vec<char>)
        ensures
            final(out)@ == old(out)@ + self.spec_hex(),
    {
        let bytes = halves_to_vec(self.hi, self.lo);
        encode_hex(out, &bytes);
    }

    /// Reads a key from exactly 64 hexadecimal digits of either case.
    pub fn from_hex(text: &str) -> (key: Option<SecretKey>)
        ensures
            key == Self::spec_from_hex(text@),
    {
        let chars = crate::text::chars_of(text);
        Self::from_hex_chars(&chars)
    }

    /// The key as 64 lower-case hexadecimal digits.
    pub fn to_hex(&self) -> (text: String)
        ensures
            text@ == self.spec_hex(),
    {
        let mut out: Vec<char> = Vec::new();
        self.write_hex(&mut out);
        crate::text::string_of(&out)
    }

    /// Derives the public key.
    pub fn public(&self) -> (key: PublicKey)
        ensures
            key == self.spec_public(),
    {
        let secret = self.to_bytes();
        let public = x25519_base(&secret);
        PublicKey::from_bytes(&public)
    }
}

impl Default for SecretKey {
    fn default() -> (key: SecretKey)
        ensures
            key == (SecretKey { hi: 0, lo: 0 }),
    {
        SecretKey { hi: 0, lo: 0 }
    }
}

/// Reading a key's hexadecimal text gives the key back.
pub proof fn lemma_public_key_hex_round_trip(key: PublicKey)
    ensures
        key.spec_hex().len() == 64,
        PublicKey::spec_from_hex(key.spec_hex()) == Some(key),
{
    lemma_halves_round_trip(key.hi, key.lo);
    lemma_hex_round_trip(key.spec_bytes());
}

/// Reading a secret key's hexadecimal text gives the key back.
pub proof fn lemma_secret_key_hex_round_trip(key: SecretKey)
    ensures
        key.spec_hex().len() == 64,
        SecretKey::spec_from_hex(key.spec_hex()) == Some(key),
{
    lemma_halves_round_trip(key.hi, key.lo);
    lemma_hex_round_trip(key.spec_bytes());
}

} // verus!
