//! Numbers as text, and the hash that cache files are named by.

use vstd::prelude::*;

verus! {

/// The digit for `n` in base ten or sixteen.
pub open spec fn digit(n: int) -> char {
    if n < 10 {
        (n + '0' as int) as char
    } else {
        (n - 10 + 'a' as int) as char
    }
}

/// `n` in decimal, without leading zeros.
pub open spec fn decimal_nat(n: nat) -> Seq<char>
    decreases n,
{
    if n < 10 {
        seq![digit(n as int)]
    } else {
        decimal_nat(n / 10).push(digit((n % 10) as int))
    }
}

/// `n` in decimal, with a minus sign where it is negative.
pub open spec fn decimal_int(n: int) -> Seq<char> {
    if n < 0 {
        seq!['-'] + decimal_nat((-n) as nat)
    } else {
        decimal_nat(n as nat)
    }
}

/// The digit for `n` in base ten or sixteen.
fn digit_char(n: u8) -> (r: char)
    requires
        n < 16,
    ensures
        r == digit(n as int),
{
    if n < 10 {
        (n + 48) as char
    } else {
        (n - 10 + 97) as char
    }
}

/// `n` in decimal.
fn decimal_u64(n: u64) -> (r: String)
    ensures
        r@ == decimal_nat(n as nat),
    decreases n,
{
    let mut s = if n < 10 {
        String::new()
    } else {
        decimal_u64(n / 10)
    };
    s.push(digit_char((n % 10) as u8));
    s
}

/// `n` in decimal.
pub fn decimal(n: i64) -> (r: String)
    ensures
        r@ == decimal_int(n as int),
{
    if n < 0 {
        let magnitude: u64 = (-(n + 1)) as u64 + 1;
        let d = decimal_u64(magnitude);
        let mut s = String::new();
        s.push('-');
        assert(s@ =~= seq!['-']);
        s.append(d.as_str());
        s
    } else {
        decimal_u64(n as u64)
    }
}

/// The four bits of `h` that its hexadecimal digit number `i` of sixteen stands for.
pub open spec fn nibble(h: u64, i: int) -> u64 {
    (h >> ((60 - 4 * i) as u64)) & 0xf
}

/// `h` as sixteen hexadecimal digits.
pub open spec fn hex(h: u64) -> Seq<char> {
    Seq::new(16, |i: int| digit(nibble(h, i) as int))
}

/// `h` as sixteen hexadecimal digits.
pub fn hex16(h: u64) -> (r: String)
    ensures
        r@ == hex(h),
{
    let mut s = String::new();
    let mut i: u64 = 0;
    while i < 16
        invariant
            i <= 16,
            s@ == hex(h).take(i as int),
        decreases 16 - i,
    {
        let shift: u64 = 60 - 4 * i;
        let n: u64 = (h >> shift) & 0xf;
        assert(n < 16) by (bit_vector)
            requires
                n == (h >> shift) & 0xf,
        ;
        s.push(digit_char(n as u8));
        i += 1;
        assert(hex(h).take(i as int) =~= hex(h).take(i - 1).push(hex(h)[i - 1]));
    }
    assert(hex(h).take(16) =~= hex(h));
    s
}

/// Where 64-bit FNV-1a starts.
pub const FNV_OFFSET: u64 = 0xcbf2_9ce4_8422_2325;

/// What 64-bit FNV-1a multiplies by.
pub const FNV_PRIME: u64 = 0x100_0000_01b3;

/// The 64-bit FNV-1a hash of `b`: for each byte, exclusive or, then a product modulo
/// two to the 64.
pub open spec fn fnv1a(b: Seq<u8>) -> u64
    decreases b.len(),
{
    if b.len() == 0 {
        FNV_OFFSET
    } else {
        ((fnv1a(b.drop_last()) ^ b.last() as u64) * FNV_PRIME % 0x1_0000_0000_0000_0000) as u64
    }
}

/// The 64-bit FNV-1a hash of the bytes of `b`.
pub fn fnv(b: &[u8]) -> (r: u64)
    ensures
        r == fnv1a(b@),
{
    let mut h: u64 = FNV_OFFSET;
    let mut i: usize = 0;
    while i < b.len()
        invariant
            0 <= i <= b@.len(),
            h == fnv1a(b@.take(i as int)),
        decreases b@.len() - i,
    {
        assert(b@.take(i + 1).drop_last() =~= b@.take(i as int));
        h = (h ^ (b[i] as u64)).wrapping_mul(FNV_PRIME);
        i += 1;
    }
    assert(b@.take(b@.len() as int) =~= b@);
    h
}

/// Different numbers have different hexadecimal digits.
pub proof fn law_hex_injective(a: u64, b: u64)
    requires
        hex(a) == hex(b),
    ensures
        a == b,
{
    assert forall|i: int| 0 <= i < 16 implies nibble(a, i) == nibble(b, i) by {
        let x = nibble(a, i);
        let y = nibble(b, i);
        let sh = (60 - 4 * i) as u64;
        assert((a >> sh) & 0xf < 16) by (bit_vector);
        assert((b >> sh) & 0xf < 16) by (bit_vector);
        assert(hex(a)[i] == digit(x as int) && hex(b)[i] == digit(y as int));
        assert(digit(x as int) as int == if x < 10 { x + 48 } else { x + 87 });
        assert(digit(y as int) as int == if y < 10 { y + 48 } else { y + 87 });
    }
    assert(nibble(a, 0) == nibble(b, 0) && nibble(a, 1) == nibble(b, 1) && nibble(a, 2) == nibble(b, 2)
        && nibble(a, 3) == nibble(b, 3) && nibble(a, 4) == nibble(b, 4) && nibble(a, 5) == nibble(b, 5)
        && nibble(a, 6) == nibble(b, 6) && nibble(a, 7) == nibble(b, 7) && nibble(a, 8) == nibble(b, 8)
        && nibble(a, 9) == nibble(b, 9) && nibble(a, 10) == nibble(b, 10) && nibble(a, 11) == nibble(
        b,
        11,
    ) && nibble(a, 12) == nibble(b, 12) && nibble(a, 13) == nibble(b, 13) && nibble(a, 14) == nibble(
        b,
        14,
    ) && nibble(a, 15) == nibble(b, 15));
    assert(a == b) by (bit_vector)
        requires
            (a >> 60u64) & 0xf == (b >> 60u64) & 0xf,
            (a >> 56u64) & 0xf == (b >> 56u64) & 0xf,
            (a >> 52u64) & 0xf == (b >> 52u64) & 0xf,
            (a >> 48u64) & 0xf == (b >> 48u64) & 0xf,
            (a >> 44u64) & 0xf == (b >> 44u64) & 0xf,
            (a >> 40u64) & 0xf == (b >> 40u64) & 0xf,
            (a >> 36u64) & 0xf == (b >> 36u64) & 0xf,
            (a >> 32u64) & 0xf == (b >> 32u64) & 0xf,
            (a >> 28u64) & 0xf == (b >> 28u64) & 0xf,
            (a >> 24u64) & 0xf == (b >> 24u64) & 0xf,
            (a >> 20u64) & 0xf == (b >> 20u64) & 0xf,
            (a >> 16u64) & 0xf == (b >> 16u64) & 0xf,
            (a >> 12u64) & 0xf == (b >> 12u64) & 0xf,
            (a >> 8u64) & 0xf == (b >> 8u64) & 0xf,
            (a >> 4u64) & 0xf == (b >> 4u64) & 0xf,
            (a >> 0u64) & 0xf == (b >> 0u64) & 0xf,
    ;
}

/// The number that decimal digits stand for.
pub open spec fn read_decimal(s: Seq<char>) -> int
    decreases s.len(),
{
    if s.len() == 0 {
        0
    } else {
        10 * read_decimal(s.drop_last()) + (s.last() as int - '0' as int)
    }
}

/// A number in decimal reads as the number, is made of digits, and has no zero in front.
pub proof fn law_decimal_read_back(n: nat)
    ensures
        read_decimal(decimal_nat(n)) == n,
        forall|i: int| 0 <= i < decimal_nat(n).len() ==> '0' <= #[trigger] decimal_nat(n)[i] <= '9',
        decimal_nat(n).len() > 0,
        decimal_nat(n)[0] == '0' ==> n == 0,
    decreases n,
{
    let s = decimal_nat(n);
    if n < 10 {
        assert(s.drop_last() =~= Seq::empty());
        assert(read_decimal(s.drop_last()) == 0);
    } else {
        law_decimal_read_back(n / 10);
        assert(s.drop_last() =~= decimal_nat(n / 10));
        assert(s[0] == decimal_nat(n / 10)[0]);
        assert forall|i: int| 0 <= i < s.len() implies '0' <= #[trigger] s[i] <= '9' by {
            if i < s.len() - 1 {
                assert(s[i] == decimal_nat(n / 10)[i]);
            }
        }
    }
}

/// A negative number is its opposite behind a minus sign.
pub proof fn law_sign_read_back(n: int)
    ensures
        n >= 0 ==> read_decimal(decimal_int(n)) == n,
        n < 0 ==> decimal_int(n)[0] == '-' && read_decimal(decimal_int(n).drop_first()) == -n,
{
    if n < 0 {
        law_decimal_read_back((-n) as nat);
        assert(decimal_int(n).drop_first() =~= decimal_nat((-n) as nat));
    } else {
        law_decimal_read_back(n as nat);
    }
}

/// The number that hexadecimal digits stand for.
pub open spec fn read_hex(s: Seq<char>) -> int
    decreases s.len(),
{
    if s.len() == 0 {
        0
    } else {
        16 * read_hex(s.drop_last()) + if s.last() <= '9' {
            s.last() as int - '0' as int
        } else {
            s.last() as int - 'a' as int + 10
        }
    }
}

/// The first digits read as the first bits.
proof fn lemma_read_hex(h: u64, i: int)
    requires
        1 <= i <= 16,
    ensures
        read_hex(hex(h).take(i)) == h >> ((64 - 4 * i) as u64),
    decreases i,
{
    let s = hex(h).take(i);
    let sh = (64 - 4 * i) as u64;
    let x = h >> sh;
    let d = nibble(h, i - 1);
    assert(x & 0xf < 16) by (bit_vector);
    assert(d == x & 0xf);
    assert(s.last() == digit(d as int));
    assert(s.drop_last() =~= hex(h).take(i - 1));
    if i == 1 {
        assert(s.drop_last() =~= Seq::empty());
        assert(read_hex(s.drop_last()) == 0);
        assert((h >> 60u64) & 0xf == h >> 60u64) by (bit_vector);
    } else {
        lemma_read_hex(h, i - 1);
        assert(h >> ((sh + 4) as u64) == x >> 4u64) by (bit_vector)
            requires
                x == h >> sh,
                sh <= 56,
        ;
        assert(x == 16 * (x >> 4u64) + (x & 0xf)) by (bit_vector);
        assert((64 - 4 * (i - 1)) as u64 == (sh + 4) as u64);
    }
}

/// A number in hexadecimal has sixteen digits and reads as the number.
pub proof fn law_hex_read_back(h: u64)
    ensures
        hex(h).len() == 16,
        read_hex(hex(h)) == h,
{
    lemma_read_hex(h, 16);
    assert(hex(h).take(16) =~= hex(h));
    assert(h >> 0u64 == h) by (bit_vector);
}

/// The hash is 64-bit FNV-1a: it starts at the offset basis, and each further byte, whatever
/// came before, is taken in by exclusive or and then a product with the prime, modulo two to
/// the 64.
pub proof fn law_hash_takes_in_each_byte(b: Seq<u8>, x: u8)
    ensures
        fnv1a(Seq::empty()) == 0xcbf2_9ce4_8422_2325u64,
        fnv1a(b.push(x)) == (fnv1a(b) ^ x as u64) * 0x100_0000_01b3u64 % 0x1_0000_0000_0000_0000,
{
    assert(b.push(x).drop_last() =~= b);
}

}
