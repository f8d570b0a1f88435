//! 20-byte account and contract addresses, and their hexadecimal text.
//!
//! Reading follows `FromStr` of the `H160` address type that the bot's
//! Ethereum client uses: one leading `0x` is dropped, the blanks space, tab,
//! carriage return and line feed are skipped wherever they stand, and exactly
//! forty hex digits (either case) must remain, read big-endian two per byte.

use vstd::prelude::*;

verus! {

/// A 20-byte address, most significant byte first.
#[derive(Debug, Clone, Copy, PartialEq, Eq, Hash)]
pub struct Address {
    pub bytes: [u8; 20],
}

/// `c` is a hex digit in either case.
pub open spec fn is_hex(c: char) -> bool {
    ('0' <= c && c <= '9') || ('a' <= c && c <= 'f') || ('A' <= c && c <= 'F')
}

/// `c` is one of the blanks that hex reading skips.
pub open spec fn is_hex_blank(c: char) -> bool {
    c == ' ' || c == '\r' || c == '\n' || c == '\t'
}

/// The value of a hex digit.
pub open spec fn hex_value(c: char) -> int {
    if '0' <= c && c <= '9' {
        (c as int) - ('0' as int)
    } else if 'a' <= c && c <= 'f' {
        (c as int) - ('a' as int) + 10
    } else {
        (c as int) - ('A' as int) + 10
    }
}

/// `s` without one leading `0x`.
pub open spec fn strip_0x(s: Seq<char>) -> Seq<char> {
    if s.len() >= 2 && s[0] == '0' && s[1] == 'x' {
        s.subrange(2, s.len() as int)
    } else {
        s
    }
}

/// Every character of `s` is a hex digit or a skipped blank.
pub open spec fn hex_or_blank(s: Seq<char>) -> bool {
    forall|i: int| 0 <= i < s.len() ==> is_hex(#[trigger] s[i]) || is_hex_blank(s[i])
}

/// The values of the hex digits of `s`, in order.
pub open spec fn hex_nibbles(s: Seq<char>) -> Seq<u8>
    decreases s.len(),
{
    if s.len() == 0 {
        Seq::empty()
    } else if is_hex(s.last()) {
        hex_nibbles(s.drop_last()).push(hex_value(s.last()) as u8)
    } else {
        hex_nibbles(s.drop_last())
    }
}

/// The bytes that a sequence of 40 nibbles spells, two nibbles per byte.
pub open spec fn nibbles_to_bytes(n: Seq<u8>) -> Seq<u8> {
    Seq::new(20, |k: int| (n[2 * k] * 16 + n[2 * k + 1]) as u8)
}

/// The address that the text `s` spells, if it spells one.
pub open spec fn spec_parse_address(s: Seq<char>) -> Option<Seq<u8>> {
    let t = strip_0x(s);
    if hex_or_blank(t) && hex_nibbles(t).len() == 40 {
        Some(nibbles_to_bytes(hex_nibbles(t)))
    } else {
        None
    }
}

impl Address {
    /// The all-zero address.
    pub open spec fn spec_zero() -> Seq<u8> {
        Seq::new(20, |i: int| 0u8)
    }

    /// The all-zero address.
    pub fn zero() -> (a: Address)
        ensures
            a.bytes@ == Self::spec_zero(),
    {
        let a = Address { bytes: [0u8; 20] };
        assert(a.bytes@ =~= Self::spec_zero());
        a
    }

    /// Whether this is the all-zero address.
    pub fn is_zero(&self) -> (r: bool)
        ensures
            r == (self.bytes@ == Self::spec_zero()),
    {
        let mut i: usize = 0;
        while i < 20
            invariant
                i <= 20,
                self.bytes@.len() == 20,
                forall|k: int| 0 <= k < i ==> self.bytes@[k] == 0,
            decreases 20 - i,
        {
            if self.bytes[i] != 0 {
                assert(self.bytes@[i as int] != Self::spec_zero()[i as int]);
                return false;
            }
            i = i + 1;
        }
        assert(self.bytes@ =~= Self::spec_zero());
        true
    }

    /// Byte-wise equality of two addresses.
    pub fn same_as(&self, other: &Address) -> (r: bool)
        ensures
            r == (self.bytes@ == other.bytes@),
    {
        let mut i: usize = 0;
        while i < 20
            invariant
                i <= 20,
                self.bytes@.len() == 20,
                other.bytes@.len() == 20,
                forall|k: int| 0 <= k < i ==> self.bytes@[k] == other.bytes@[k],
            decreases 20 - i,
        {
            if self.bytes[i] != other.bytes[i] {
                return false;
            }
            i = i + 1;
        }
        assert(self.bytes@ =~= other.bytes@);
        true
    }
}

/// The value of a hex digit character, if it is one.
fn hex_digit(c: char) -> (r: Option<u8>)
    ensures
        r is Some <==> is_hex(c),
        r matches Some(v) ==> v == hex_value(c) && v < 16,
{
    if '0' <= c && c <= '9' {
        Some((c as u32 - '0' as u32) as u8)
    } else if 'a' <= c && c <= 'f' {
        Some((c as u32 - 'a' as u32 + 10) as u8)
    } else if 'A' <= c && c <= 'F' {
        Some((c as u32 - 'A' as u32 + 10) as u8)
    } else {
        None
    }
}

/// Reads an address from its hex text, as the client's `Address::from_str`.
pub fn parse_address(s: &str) -> (r: Option<Address>)
    ensures
        match r {
            Some(a) => spec_parse_address(s@) == Some(a.bytes@),
            None => spec_parse_address(s@) is None,
        },
{
    let len = s.unicode_len();
    let start: usize = if len >= 2 && s.get_char(0) == '0' && s.get_char(1) == 'x' {
        2
    } else {
        0
    };
    let ghost t = strip_0x(s@);
    assert(t =~= s@.subrange(start as int, len as int));
    let mut nibbles: Vec<u8> = Vec::new();
    let mut i: usize = start;
    while i < len
        invariant
            start <= i <= len,
            len == s@.len(),
            t == strip_0x(s@),
            t =~= s@.subrange(start as int, len as int),
            hex_or_blank(t.take(i - start)),
            nibbles@ == hex_nibbles(t.take(i - start)),
            forall|j: int| 0 <= j < nibbles@.len() ==> #[trigger] nibbles@[j] < 16,
        decreases len - i,
    {
        let c = s.get_char(i);
        let ghost prefix = t.take(i - start);
        let ghost next = t.take(i - start + 1);
        assert(next.drop_last() =~= prefix);
        assert(next.last() == c);
        match hex_digit(c) {
            Some(v) => {
                nibbles.push(v);
            },
            None => {
                if !(c == ' ' || c == '\r' || c == '\n' || c == '\t') {
                    assert(!(is_hex(t[i - start]) || is_hex_blank(t[i - start])));
                    return None;
                }
            },
        }
        assert forall|k: int| 0 <= k < next.len() implies is_hex(#[trigger] next[k]) || is_hex_blank(
            next[k],
        ) by {
            if k < prefix.len() {
                assert(next[k] == prefix[k]);
            }
        }
        i = i + 1;
    }
    assert(t.take(len - start) =~= t);
    if nibbles.len() != 40 {
        return None;
    }
    let mut bytes = [0u8; 20];
    let mut k: usize = 0;
    while k < 20
        invariant
            k <= 20,
            nibbles@.len() == 40,
            bytes@.len() == 20,
            forall|j: int| 0 <= j < 40 ==> #[trigger] nibbles@[j] < 16,
            forall|j: int| 0 <= j < k ==> bytes@[j] == nibbles_to_bytes(nibbles@)[j],
        decreases 20 - k,
    {
        let hi = nibbles[2 * k];
        let lo = nibbles[2 * k + 1];
        assert(hi * 16 + lo < 256) by (nonlinear_arith)
            requires
                hi < 16,
                lo < 16,
        ;
        bytes[k] = hi * 16 + lo;
        k = k + 1;
    }
    assert(bytes@ =~= nibbles_to_bytes(nibbles@));
    Some(Address { bytes })
}

} // verus!
