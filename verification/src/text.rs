//! Text forms of the values that a scan reports.

use vstd::prelude::*;
use crate::options::MacAddress;

verus! {

/// `String::push` appends the character to the end of the text.
pub assume_specification[ String::push ](text: &mut String, c: char)
    ensures
        final(text)@ == old(text)@.push(c),
;

/// `String::push_str` appends the whole of `more` to the end of the text.
pub assume_specification[ String::push_str ](text: &mut String, more: &str)
    ensures
        final(text)@ == old(text)@ + more@,
;

/// The character of a decimal digit.
pub open spec fn digit_char(digit: int) -> char
    recommends
        0 <= digit < 10,
{
    ((48 + digit) as u8) as char
}

/// A number in decimal, without leading zeros.
pub open spec fn decimal_text(value: nat) -> Seq<char>
    decreases value,
{
    if value < 10 {
        seq![digit_char(value as int)]
    } else {
        decimal_text(value / 10).push(digit_char((value % 10) as int))
    }
}

/// Appends a number in decimal.
pub fn push_decimal(text: &mut String, value: u64)
    ensures
        final(text)@ == old(text)@ + decimal_text(value as nat),
    decreases value,
{
    if value >= 10 {
        push_decimal(text, value / 10);
    }
    let digit: u8 = (value % 10) as u8;
    text.push((48 + digit) as char);
    assert(text@ =~= old(text)@ + decimal_text(value as nat));
}

/// An IPv4 address in dotted decimal, most significant octet first.
pub open spec fn ipv4_text(address: u32) -> Seq<char> {
    decimal_text((address / 0x100_0000) as nat) + seq!['.'] + decimal_text(
        ((address / 0x1_0000) % 256) as nat,
    ) + seq!['.'] + decimal_text(((address / 0x100) % 256) as nat) + seq!['.'] + decimal_text(
        (address % 256) as nat,
    )
}

/// Writes an IPv4 address in dotted decimal.
pub fn format_ipv4(address: u32) -> (text: String)
    ensures
        text@ == ipv4_text(address),
{
    let mut text = String::new();
    push_decimal(&mut text, (address / 0x100_0000) as u64);
    text.push('.');
    push_decimal(&mut text, ((address / 0x1_0000) % 256) as u64);
    text.push('.');
    push_decimal(&mut text, ((address / 0x100) % 256) as u64);
    text.push('.');
    push_decimal(&mut text, (address % 256) as u64);
    assert(text@ =~= ipv4_text(address));
    text
}

/// The character of a hexadecimal digit, in lower case.
pub open spec fn hex_char(digit: int) -> char
    recommends
        0 <= digit < 16,
{
    if digit < 10 {
        ((48 + digit) as u8) as char
    } else {
        ((87 + digit) as u8) as char
    }
}

/// An octet as two hexadecimal digits.
pub open spec fn octet_text(octet: u8) -> Seq<char> {
    seq![hex_char(octet as int / 16), hex_char(octet as int % 16)]
}

/// A hardware address as six octets in lower-case hexadecimal, with colons
/// between them.
pub open spec fn mac_text(mac: MacAddress) -> Seq<char> {
    octet_text(mac.0) + seq![':'] + octet_text(mac.1) + seq![':'] + octet_text(mac.2) + seq![':']
        + octet_text(mac.3) + seq![':'] + octet_text(mac.4) + seq![':'] + octet_text(mac.5)
}

/// Writes a hardware address through the `Display` of
/// `pnet_datalink::MacAddr`, which prints each of the six octets as two
/// lower-case hexadecimal digits and puts a colon between them.
#[verifier::external_body]
pub(crate) fn format_mac(mac: MacAddress) -> (text: String)
    ensures
        text@ == mac_text(mac),
{
    pnet_datalink::MacAddr::new(mac.0, mac.1, mac.2, mac.3, mac.4, mac.5).to_string()
}

} // verus!
