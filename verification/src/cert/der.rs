//! The DER byte strings that the certificate writer emits.

use vstd::prelude::*;
use crate::bits::reversed_bits;
use crate::cert::time::{civil_of, CivilTime};

verus! {

/// The longest content that the writer gives a length to.
pub const MAX_DER_CONTENT: usize = 65535;

pub const TAG_BOOLEAN: u8 = 0x01;
pub const TAG_INTEGER: u8 = 0x02;
pub const TAG_BIT_STRING: u8 = 0x03;
pub const TAG_OCTET_STRING: u8 = 0x04;
pub const TAG_OID: u8 = 0x06;
pub const TAG_UTF8_STRING: u8 = 0x0c;
pub const TAG_UTC_TIME: u8 = 0x17;
pub const TAG_SEQUENCE: u8 = 0x30;
pub const TAG_SET: u8 = 0x31;
pub const TAG_CTX_IMPLICIT: u8 = 0x80;
pub const TAG_CTX_EXPLICIT: u8 = 0xa0;

/// The length field of a content of `n` bytes: one byte below 128, else a
/// byte that counts the length bytes and the length, most significant byte
/// first, in as few bytes as hold it.
pub open spec fn der_len_bytes(n: nat) -> Seq<u8> {
    if n < 128 {
        seq![n as u8]
    } else if n < 256 {
        seq![0x81u8, n as u8]
    } else {
        seq![0x82u8, (n / 256) as u8, (n % 256) as u8]
    }
}

/// A tag, the length of the content, and the content.
pub open spec fn der_tlv(tag: u8, content: Seq<u8>) -> Seq<u8> {
    seq![tag] + der_len_bytes(content.len()) + content
}

/// A tag, length and content, where there is a content and the writer has
/// a length field for it.
pub open spec fn tlv_opt(tag: u8, content: Option<Seq<u8>>) -> Option<Seq<u8>> {
    match content {
        Some(c) => if c.len() <= MAX_DER_CONTENT {
            Some(der_tlv(tag, c))
        } else {
            None
        },
        None => None,
    }
}

/// One byte string after the other, where both are there.
pub open spec fn cat_opt(a: Option<Seq<u8>>, b: Option<Seq<u8>>) -> Option<Seq<u8>> {
    match (a, b) {
        (Some(x), Some(y)) => Some(x + y),
        _ => None,
    }
}

/// The content of an INTEGER: the bytes, after a zero byte where the first
/// has its high bit set.
pub open spec fn integer_content(i: Seq<u8>) -> Seq<u8> {
    if i.len() > 0 && i[0] >= 0x80 {
        seq![0u8] + i
    } else {
        i
    }
}

/// The number of zero bits at the low end of a byte that is not zero.
pub open spec fn trailing_zero_bits(b: u8) -> u8 {
    if b % 2 != 0 {
        0
    } else if b % 4 != 0 {
        1
    } else if b % 8 != 0 {
        2
    } else if b % 16 != 0 {
        3
    } else if b % 32 != 0 {
        4
    } else if b % 64 != 0 {
        5
    } else if b % 128 != 0 {
        6
    } else {
        7
    }
}

/// `s` without the zero bytes at its end.
pub open spec fn strip_zero_bytes(s: Seq<u8>) -> Seq<u8>
    decreases s.len(),
{
    if s.len() > 0 && s.last() == 0 {
        strip_zero_bytes(s.drop_last())
    } else {
        s
    }
}

/// The content of a BIT STRING: the count of unused bits, then the bytes.
/// When truncating, the zero bytes at the end are left out and the zero
/// bits at the end of the last byte are counted as unused.
pub open spec fn bitstr_content(truncate: bool, s: Seq<u8>) -> Seq<u8> {
    if truncate {
        let t = strip_zero_bytes(s);
        if t.len() == 0 {
            seq![0u8]
        } else {
            seq![trailing_zero_bits(t.last())] + t
        }
    } else {
        seq![0u8] + s
    }
}

/// The two ASCII digits of a number below 100.
pub open spec fn two_digits(n: int) -> Seq<u8> {
    seq![(0x30 + n / 10) as u8, (0x30 + n % 10) as u8]
}

/// The text of a UTCTime: `YYMMDDhhmmssZ`.
pub open spec fn utc_time_text(t: CivilTime) -> Seq<u8> {
    two_digits(t.year as int % 100) + two_digits(t.month as int) + two_digits(t.day as int)
        + two_digits(t.hour as int) + two_digits(t.minute as int) + two_digits(t.second as int)
        + seq![0x5au8]
}

/// The content of the UTCTime that lies `epoch` seconds after the Matter
/// epoch.
pub open spec fn utctime_content(epoch: u32) -> Seq<u8> {
    utc_time_text(civil_of(epoch))
}

/// The two bytes of a key-usage bit mask as a bit string: low byte first,
/// each with its bits in reverse order.
pub open spec fn key_usage_bits(key_usage: u16) -> Seq<u8> {
    seq![reversed_bits((key_usage % 256) as u8), reversed_bits((key_usage / 256) as u8)]
}

} // verus!

verus! {

/// The length that a length field spells.
pub open spec fn der_len_value(b: Seq<u8>) -> nat {
    if b[0] < 128 {
        b[0] as nat
    } else if b[0] == 0x81 {
        b[1] as nat
    } else {
        b[1] as nat * 256 + b[2] as nat
    }
}

/// A length field spells the length it was made for, and is as short as a
/// DER length can be: one byte below 128, two bytes from 128 to 255, three
/// bytes from 256 on.
pub proof fn law_der_len_minimal(n: nat)
    requires
        n <= MAX_DER_CONTENT,
    ensures
        der_len_value(der_len_bytes(n)) == n,
        der_len_bytes(n).len() == (if n < 128 {
            1nat
        } else if n < 256 {
            2nat
        } else {
            3nat
        }),
        n >= 256 ==> der_len_bytes(n)[1] != 0,
        128 <= n < 256 ==> der_len_bytes(n)[1] >= 128,
{
}

} // verus!
