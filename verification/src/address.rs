//! User addresses.

use vstd::prelude::*;

verus! {

/// A twenty-byte account address, read as one big-endian number: its first four bytes and its
/// last sixteen.
#[derive(Clone, Copy, Debug, PartialEq, Eq, Structural)]
pub struct Address {
    pub hi: u32,
    pub lo: u128,
}

/// What a hexadecimal digit stands for, in either case.
pub open spec fn digit_value(c: char) -> Option<int> {
    if '0' <= c <= '9' {
        Some(c as int - '0' as int)
    } else if 'a' <= c <= 'f' {
        Some(c as int - 'a' as int + 10)
    } else if 'A' <= c <= 'F' {
        Some(c as int - 'A' as int + 10)
    } else {
        None
    }
}

/// The number that a row of hexadecimal digits stands for.
pub open spec fn hex_value(digits: Seq<char>) -> int
    decreases digits.len(),
{
    if digits.len() == 0 {
        0
    } else {
        16 * hex_value(digits.drop_last()) + digit_value(digits.last()).unwrap_or(0)
    }
}

/// The digits of an address text: what follows the prefix `0x` or `0X`, or the whole text where
/// it has none.
pub open spec fn address_digits(text: Seq<char>) -> Seq<char> {
    if text.len() >= 2 && text[0] == '0' && (text[1] == 'x' || text[1] == 'X') {
        text.skip(2)
    } else {
        text
    }
}

/// Whether a text names an address: forty hexadecimal digits behind an optional prefix.
pub open spec fn is_address_text(text: Seq<char>) -> bool {
    let digits = address_digits(text);
    &&& digits.len() == 40
    &&& forall|i: int| 0 <= i < digits.len() ==> digit_value(#[trigger] digits[i]) is Some
}

/// The address that a text names.
pub open spec fn named_address(text: Seq<char>) -> Address {
    let value = hex_value(address_digits(text));
    Address {
        hi: (value / 0x1_0000_0000_0000_0000_0000_0000_0000_0000int) as u32,
        lo: (value % 0x1_0000_0000_0000_0000_0000_0000_0000_0000int) as u128,
    }
}

/// What is said of a text that names no address.
pub uninterp spec fn address_complaint(text: Seq<char>) -> Seq<char>;

impl Address {
    /// The address as one number of twenty bytes.
    pub open spec fn value(self) -> int {
        self.hi * 0x1_0000_0000_0000_0000_0000_0000_0000_0000 + self.lo
    }

    /// Reads an address, or says what is wrong with the text.
    pub fn parse(text: &str) -> (read: Result<Address, String>)
        ensures
            read is Ok <==> is_address_text(text@),
            read matches Ok(address) ==> {
                &&& address.value() == hex_value(address_digits(text@))
                &&& address == named_address(text@)
            },
            read matches Err(complaint) ==> complaint@ == address_complaint(text@),
    {
        parse_address(text)
    }
}

/// Reads an address.
///
/// Trusted: calls the `FromStr` of `alloy::primitives::Address`, and `to_string` on its error.
/// Claimed of it: the text is accepted exactly where it is forty hexadecimal digits, in any mix
/// of cases, behind an optional `0x` or `0X`; the twenty bytes are the number that the digits
/// stand for; and the text of the error is a function of the text that was read.
#[verifier::external_body]
fn parse_address(text: &str) -> (read: Result<Address, String>)
    ensures
        read is Ok <==> is_address_text(text@),
        read matches Ok(address) ==> address.value() == hex_value(address_digits(text@)),
        read matches Err(complaint) ==> complaint@ == address_complaint(text@),
{
    match text.parse::<alloy::primitives::Address>() {
        Ok(address) => {
            let b = address.into_array();
            Ok(Address {
                hi: u32::from_be_bytes([b[0], b[1], b[2], b[3]]),
                lo: u128::from_be_bytes([
                    b[4], b[5], b[6], b[7], b[8], b[9], b[10], b[11],
                    b[12], b[13], b[14], b[15], b[16], b[17], b[18], b[19],
                ]),
            })
        },
        Err(err) => Err(err.to_string()),
    }
}

} // verus!
