//! Build-time and runtime policy for the host-visible USB identity.

use vstd::prelude::*;
use vstd::string::StringSliceAdditionalSpecFns;

verus! {

pub const MAX_USB_SERIAL_LENGTH: usize = 32;

#[derive(Clone, Copy, Debug, PartialEq, Eq, Structural)]
pub enum IdentityError {
    EmptySerial,
    InvalidNumber,
    InvalidSerial,
    ReservedProductId,
    ReservedVendorId,
}

#[derive(Clone, Copy, Debug, PartialEq, Eq)]
pub struct UsbIdentity<'a> {
    pub vid: u16,
    pub pid: u16,
    pub serial: &'a str,
}

/// A byte allowed in a USB serial: ASCII letters and digits, `-`, `_`, `.`.
pub open spec fn serial_byte_allowed(b: u8) -> bool {
    (0x30 <= b <= 0x39) || (0x41 <= b <= 0x5a) || (0x61 <= b <= 0x7a) || b == 0x2d || b == 0x5f
        || b == 0x2e
}

/// The serial policy over the UTF-8 bytes of the serial.
pub open spec fn valid_usb_serial(bytes: Seq<u8>) -> bool {
    &&& bytes.len() != 0
    &&& bytes.len() <= MAX_USB_SERIAL_LENGTH
    &&& forall|i: int| 0 <= i < bytes.len() ==> #[trigger] serial_byte_allowed(bytes[i])
}

/// Restricts the host-visible serial to a short, predictable ASCII form.
pub fn is_valid_usb_serial(serial: &str) -> (r: bool)
    ensures
        r == valid_usb_serial(serial.spec_bytes()),
{
    let bytes = serial.as_bytes();
    let len = bytes.len();
    if len == 0 || len > MAX_USB_SERIAL_LENGTH {
        return false;
    }
    let mut i: usize = 0;
    while i < len
        invariant
            i <= len,
            len == bytes@.len(),
            bytes@ == serial.spec_bytes(),
            forall|j: int| 0 <= j < i ==> #[trigger] serial_byte_allowed(bytes@[j]),
        decreases len - i,
    {
        let b = bytes[i];
        let allowed = (0x30u8 <= b && b <= 0x39u8) || (0x41u8 <= b && b <= 0x5au8) || (0x61u8 <= b && b
            <= 0x7au8) || b == 0x2du8 || b == 0x5fu8 || b == 0x2eu8;
        if !allowed {
            assert(!serial_byte_allowed(bytes@[i as int]));
            return false;
        }
        i = i + 1;
    }
    true
}

/// The value of ASCII digit `b` in `radix` (letters count from ten, in either
/// case), if it is one.
pub open spec fn digit_value(b: u8, radix: nat) -> Option<nat> {
    let v: int = if 0x30 <= b <= 0x39 {
        b - 0x30
    } else if 0x61 <= b <= 0x7a {
        b - 0x61 + 10
    } else if 0x41 <= b <= 0x5a {
        b - 0x41 + 10
    } else {
        100
    };
    if v < radix {
        Some(v as nat)
    } else {
        None
    }
}

/// The number written with the digits `ds` in `radix`, if every byte is a
/// digit.
pub open spec fn digits_value(ds: Seq<u8>, radix: nat) -> Option<nat>
    decreases ds.len(),
{
    if ds.len() == 0 {
        Some(0)
    } else {
        match (digits_value(ds.drop_last(), radix), digit_value(ds.last(), radix)) {
            (Some(high), Some(low)) => Some(high * radix + low),
            _ => None,
        }
    }
}

/// What `u16::from_str_radix` accepts: an optional leading `+`, then at least
/// one digit, for a value that fits in 16 bits.
pub open spec fn from_str_radix_u16(text: Seq<u8>, radix: nat) -> Option<u16> {
    let digits = if text.len() > 0 && text[0] == 0x2b {
        text.drop_first()
    } else {
        text
    };
    if digits.len() == 0 {
        None
    } else {
        match digits_value(digits, radix) {
            Some(v) => if v <= u16::MAX {
                Some(v as u16)
            } else {
                None
            },
            None => None,
        }
    }
}

/// A build value: hexadecimal after `0x` or `0X`, decimal otherwise.
pub open spec fn spec_parse_u16(text: Seq<u8>) -> Option<u16> {
    if text.len() >= 2 && text[0] == 0x30 && (text[1] == 0x78 || text[1] == 0x58) {
        from_str_radix_u16(text.subrange(2, text.len() as int), 16)
    } else {
        from_str_radix_u16(text, 10)
    }
}

/// The identity policy: vendor and product ids avoid 0 and 0xffff, and the
/// serial is non-empty and passes the serial policy.
pub open spec fn identity_result<'a>(vid: u16, pid: u16, serial: &'a str) -> Result<
    UsbIdentity<'a>,
    IdentityError,
> {
    if vid == 0 || vid == u16::MAX {
        Err(IdentityError::ReservedVendorId)
    } else if pid == 0 || pid == u16::MAX {
        Err(IdentityError::ReservedProductId)
    } else if serial@.len() == 0 {
        Err(IdentityError::EmptySerial)
    } else if !valid_usb_serial(serial.spec_bytes()) {
        Err(IdentityError::InvalidSerial)
    } else {
        Ok(UsbIdentity { vid, pid, serial })
    }
}

impl<'a> UsbIdentity<'a> {
    pub fn new(vid: u16, pid: u16, serial: &'a str) -> (r: Result<Self, IdentityError>)
        ensures
            r == identity_result(vid, pid, serial),
    {
        if vid == 0 || vid == u16::MAX {
            return Err(IdentityError::ReservedVendorId);
        }
        if pid == 0 || pid == u16::MAX {
            return Err(IdentityError::ReservedProductId);
        }
        if serial.is_empty() {
            return Err(IdentityError::EmptySerial);
        }
        if !is_valid_usb_serial(serial) {
            return Err(IdentityError::InvalidSerial);
        }
        Ok(Self { vid, pid, serial })
    }

    /// The identity from the textual build values.
    pub fn from_build_values(vid: &'a str, pid: &'a str, serial: &'a str) -> (r: Result<
        Self,
        IdentityError,
    >)
        ensures
            r == (match (spec_parse_u16(vid.spec_bytes()), spec_parse_u16(pid.spec_bytes())) {
                (Some(v), Some(p)) => identity_result(v, p, serial),
                _ => Err(IdentityError::InvalidNumber),
            }),
    {
        let vid = parse_u16(vid)?;
        let pid = parse_u16(pid)?;
        Self::new(vid, pid, serial)
    }
}

/// Reading a digit string never gives less than reading one of its prefixes.
proof fn lemma_digits_value_monotone(ds: Seq<u8>, k: int, radix: nat)
    requires
        0 <= k <= ds.len(),
        radix >= 1,
        digits_value(ds, radix) is Some,
    ensures
        digits_value(ds.subrange(0, k), radix) is Some,
        digits_value(ds.subrange(0, k), radix)->0 <= digits_value(ds, radix)->0,
    decreases ds.len() - k,
{
    if k < ds.len() {
        let high = digits_value(ds.drop_last(), radix)->0;
        let v = digits_value(ds, radix)->0;
        assert(ds.drop_last().subrange(0, k) =~= ds.subrange(0, k));
        lemma_digits_value_monotone(ds.drop_last(), k, radix);
        assert(high * radix >= high) by (nonlinear_arith)
            requires
                radix >= 1,
        ;
    } else {
        assert(ds.subrange(0, k) =~= ds);
    }
}

fn digit_of(b: u8, radix: u32) -> (r: Option<u32>)
    requires
        radix <= 36,
    ensures
        r matches Some(d) ==> digit_value(b, radix as nat) == Some(d as nat),
        r is None <==> digit_value(b, radix as nat) is None,
{
    let v: u32 = if 0x30u8 <= b && b <= 0x39u8 {
        (b - 0x30u8) as u32
    } else if 0x61u8 <= b && b <= 0x7au8 {
        (b - 0x61u8) as u32 + 10
    } else if 0x41u8 <= b && b <= 0x5au8 {
        (b - 0x41u8) as u32 + 10
    } else {
        100
    };
    if v < radix {
        Some(v)
    } else {
        None
    }
}

/// Parses `text[from..]` as `u16::from_str_radix` does.
fn str_radix_u16(text: &[u8], from: usize, radix: u32) -> (r: Option<u16>)
    requires
        from <= text@.len(),
        2 <= radix <= 16,
    ensures
        r == from_str_radix_u16(text@.subrange(from as int, text@.len() as int), radix as nat),
{
    let ghost t = text@.subrange(from as int, text@.len() as int);
    let len = text.len();
    let mut start = from;
    if start < len && text[start] == 0x2bu8 {
        start = start + 1;
    }
    let ghost digits = text@.subrange(start as int, len as int);
    assert(digits =~= (if t.len() > 0 && t[0] == 0x2b {
        t.drop_first()
    } else {
        t
    }));
    if start == len {
        return None;
    }
    let mut value: u32 = 0;
    let mut i = start;
    while i < len
        invariant
            start <= i <= len,
            len == text@.len(),
            2 <= radix <= 16,
            digits == text@.subrange(start as int, len as int),
            t == text@.subrange(from as int, len as int),
            digits == (if t.len() > 0 && t[0] == 0x2b {
                t.drop_first()
            } else {
                t
            }),
            digits.len() > 0,
            value <= u16::MAX,
            digits_value(text@.subrange(start as int, i as int), radix as nat) == Some(
                value as nat,
            ),
        decreases len - i,
    {
        let ghost prefix = text@.subrange(start as int, i + 1);
        assert(prefix.drop_last() =~= text@.subrange(start as int, i as int));
        assert(prefix.last() == text@[i as int]);
        let d = match digit_of(text[i], radix) {
            Some(d) => d,
            None => {
                proof {
                    if digits_value(digits, radix as nat) is Some {
                        lemma_digits_value_monotone(digits, i + 1 - start, radix as nat);
                        assert(digits.subrange(0, i + 1 - start) =~= prefix);
                    }
                }
                return None;
            },
        };
        assert(value * radix <= 0xffff * 16) by (nonlinear_arith)
            requires
                value <= 0xffff,
                radix <= 16,
        ;
        let next = value * radix + d;
        if next > 0xffff {
            proof {
                if digits_value(digits, radix as nat) is Some {
                    lemma_digits_value_monotone(digits, i + 1 - start, radix as nat);
                    assert(digits.subrange(0, i + 1 - start) =~= prefix);
                }
            }
            return None;
        }
        value = next;
        i = i + 1;
    }
    assert(text@.subrange(start as int, i as int) =~= digits);
    Some(value as u16)
}

fn parse_u16(value: &str) -> (r: Result<u16, IdentityError>)
    ensures
        r == (match spec_parse_u16(value.spec_bytes()) {
            Some(v) => Ok::<u16, IdentityError>(v),
            None => Err(IdentityError::InvalidNumber),
        }),
{
    let text = value.as_bytes();
    let hex = text.len() >= 2 && text[0] == 0x30u8 && (text[1] == 0x78u8 || text[1] == 0x58u8);
    let parsed = if hex {
        str_radix_u16(text, 2, 16)
    } else {
        assert(text@.subrange(0, text@.len() as int) =~= text@);
        str_radix_u16(text, 0, 10)
    };
    match parsed {
        Some(v) => Ok(v),
        None => Err(IdentityError::InvalidNumber),
    }
}


/// The serial policy accepts exactly the serials of one to
/// `MAX_USB_SERIAL_LENGTH` bytes, each an ASCII letter or digit, `-`, `_` or
/// `.`; so `UsbIdentity::new` accepts every such serial with a vendor and
/// product id that are neither 0 nor 0xffff, and refuses every other serial.
pub proof fn lemma_serial_policy(serial: &str, vid: u16, pid: u16)
    ensures
        valid_usb_serial(serial.spec_bytes()) <==> {
            let bytes = serial.spec_bytes();
            &&& 1 <= bytes.len() <= MAX_USB_SERIAL_LENGTH
            &&& forall|i: int|
                0 <= i < bytes.len() ==> {
                    let b = #[trigger] bytes[i];
                    // '0'..='9', 'A'..='Z', 'a'..='z', '-', '_', '.'
                    ||| 48 <= b < 58
                    ||| 65 <= b < 91
                    ||| 97 <= b < 123
                    ||| b == 45
                    ||| b == 95
                    ||| b == 46
                }
        },
        vid != 0 && vid != 0xffff && pid != 0 && pid != 0xffff ==> (identity_result(
            vid,
            pid,
            serial,
        ) is Ok <==> valid_usb_serial(serial.spec_bytes())),
{
    let bytes = serial.spec_bytes();
    assert forall|i: int| 0 <= i < bytes.len() implies (serial_byte_allowed(#[trigger] bytes[i])
        <==> {
        let b = bytes[i];
        ||| 48 <= b < 58
        ||| 65 <= b < 91
        ||| 97 <= b < 123
        ||| b == 45
        ||| b == 95
        ||| b == 46
    }) by {}
    if vid != 0 && vid != 0xffff && pid != 0 && pid != 0xffff && serial@.len() == 0 {
        assert(bytes.len() == 0);
    }
}

} // verus!
