//! The six-byte link-layer (MAC) address: its canonical text form
//! `xx:xx:xx:xx:xx:xx` and its raw binary form.

use vstd::prelude::*;
use vstd::string::is_ascii_spec_bytes;

verus! {

/// A link-layer address: always exactly six bytes.
#[derive(Debug, Clone, Copy, Eq, Hash)]
pub struct MacAddr(pub [u8; 6]);

/// Whether two byte arrays of one length hold the same bytes.
pub fn bytes_equal<const N: usize>(a: &[u8; N], b: &[u8; N]) -> (r: bool)
    ensures
        r == (*a == *b),
{
    let mut i: usize = 0;
    while i < N
        invariant
            0 <= i <= N,
            forall|j: int| 0 <= j < i ==> a[j] == b[j],
        decreases N - i,
    {
        if a[i] != b[i] {
            return false;
        }
        i = i + 1;
    }
    assert(*a =~= *b);
    true
}

impl PartialEq for MacAddr {
    fn eq(&self, o: &MacAddr) -> (r: bool) {
        bytes_equal(&self.0, &o.0)
    }
}

impl vstd::std_specs::cmp::PartialEqSpecImpl for MacAddr {
    open spec fn obeys_eq_spec() -> bool {
        true
    }

    open spec fn eq_spec(&self, o: &MacAddr) -> bool {
        self.0 == o.0
    }
}

/// The address whose bytes are `b` (`b` of length six).
pub open spec fn mac_of(b: Seq<u8>) -> MacAddr {
    choose|m: MacAddr| m.0@ == b
}

/// `mac_of` gives the one address with the bytes `b`.
pub proof fn lemma_mac_of(b: Seq<u8>, m: MacAddr)
    requires
        m.0@ == b,
    ensures
        mac_of(b) == m,
{
    let c = mac_of(b);
    assert(c.0@ == b);
    assert(c.0 =~= m.0);
}

/// Text or bytes that do not stand for a six-byte link-layer address.
#[derive(Debug, Clone, Copy, PartialEq, Eq)]
pub enum MacAddrError {
    MalformedAddress,
}

/// ASCII code of the group separator `:`.
const COLON: u8 = 58;

/// Number of characters in the canonical text form.
pub const TEXT_LEN: usize = 17;

/// The lowercase hex digit for `n` (`0 <= n < 16`).
pub open spec fn hex_char(n: int) -> char {
    if n < 10 {
        (48 + n) as u8 as char
    } else {
        (87 + n) as u8 as char
    }
}

/// Whether `c` is a hex digit, in either case.
pub open spec fn is_hex_digit(c: char) -> bool {
    ('0' <= c && c <= '9') || ('a' <= c && c <= 'f') || ('A' <= c && c <= 'F')
}

/// The value of the hex digit `c`.
pub open spec fn hex_value(c: char) -> int {
    if '0' <= c && c <= '9' {
        c as int - 48
    } else if 'a' <= c && c <= 'f' {
        c as int - 87
    } else {
        c as int - 55
    }
}

/// The canonical text of `b`: six two-digit lowercase hex groups joined by `:`.
pub open spec fn text_of(b: Seq<u8>) -> Seq<char> {
    Seq::new(
        17,
        |i: int|
            if i % 3 == 2 {
                ':'
            } else if i % 3 == 0 {
                hex_char(b[i / 3] as int / 16)
            } else {
                hex_char(b[i / 3] as int % 16)
            },
    )
}

/// Whether `t` is six two-digit hex groups separated by single colons.
pub open spec fn is_mac_text(t: Seq<char>) -> bool {
    t.len() == 17 && forall|i: int|
        0 <= i < 17 ==> if i % 3 == 2 {
            #[trigger] t[i] == ':'
        } else {
            is_hex_digit(t[i])
        }
}

/// The six bytes that the hex groups of `t` stand for.
pub open spec fn bytes_of_text(t: Seq<char>) -> Seq<u8> {
    Seq::new(6, |k: int| (hex_value(t[3 * k]) * 16 + hex_value(t[3 * k + 1])) as u8)
}

/// What decoding `b` gives: the address when `b` holds exactly six bytes.
pub open spec fn decoded(b: Seq<u8>) -> Option<Seq<u8>> {
    if b.len() == 6 {
        Some(b)
    } else {
        None
    }
}

/// What parsing `t` gives: the address when `t` is well-formed text.
pub open spec fn parsed(t: Seq<char>) -> Option<Seq<u8>> {
    if is_mac_text(t) {
        Some(bytes_of_text(t))
    } else {
        None
    }
}

proof fn lemma_hex_char(n: int)
    requires
        0 <= n < 16,
    ensures
        is_hex_digit(hex_char(n)),
        hex_value(hex_char(n)) == n,
        'a' <= hex_char(n) <= 'f' || '0' <= hex_char(n) <= '9',
{
}

/// Rendering any six bytes gives well-formed text that parses back to them.
pub proof fn lemma_round_trip(b: Seq<u8>)
    requires
        b.len() == 6,
    ensures
        is_mac_text(text_of(b)),
        bytes_of_text(text_of(b)) == b,
        parsed(text_of(b)) == decoded(b),
{
    let t = text_of(b);
    assert forall|i: int| 0 <= i < 17 && i % 3 != 2 implies is_hex_digit(#[trigger] t[i]) by {
        if i % 3 == 0 {
            lemma_hex_char(b[i / 3] as int / 16);
        } else {
            lemma_hex_char(b[i / 3] as int % 16);
        }
    }
    assert forall|k: int| 0 <= k < 6 implies #[trigger] bytes_of_text(t)[k] == b[k] by {
        lemma_hex_char(b[k] as int / 16);
        lemma_hex_char(b[k] as int % 16);
        assert(t[3 * k] == hex_char(b[k] as int / 16));
        assert(t[3 * k + 1] == hex_char(b[k] as int % 16));
    }
    assert(bytes_of_text(t) =~= b);
}

/// The value of the hex digit `c`, or `None` when `c` is no hex digit.
fn hex_digit_value(c: u8) -> (r: Option<u8>)
    ensures
        r is Some <==> is_hex_digit(c as char),
        r matches Some(v) ==> v as int == hex_value(c as char) && v < 16,
{
    // ASCII '0'..='9', 'a'..='f', 'A'..='F'
    if 48 <= c && c <= 57 {
        Some(c - 48)
    } else if 97 <= c && c <= 102 {
        Some(c - 87)
    } else if 65 <= c && c <= 70 {
        Some(c - 55)
    } else {
        None
    }
}

/// The lowercase hex digit for `n` as a one-character string.
fn hex_digit_text(n: u8) -> (r: &'static str)
    requires
        n < 16,
    ensures
        r@ == seq![hex_char(n as int)],
{
    if n == 0 {
        proof {
            reveal_strlit("0");
        }
        "0"
    } else if n == 1 {
        proof {
            reveal_strlit("1");
        }
        "1"
    } else if n == 2 {
        proof {
            reveal_strlit("2");
        }
        "2"
    } else if n == 3 {
        proof {
            reveal_strlit("3");
        }
        "3"
    } else if n == 4 {
        proof {
            reveal_strlit("4");
        }
        "4"
    } else if n == 5 {
        proof {
            reveal_strlit("5");
        }
        "5"
    } else if n == 6 {
        proof {
            reveal_strlit("6");
        }
        "6"
    } else if n == 7 {
        proof {
            reveal_strlit("7");
        }
        "7"
    } else if n == 8 {
        proof {
            reveal_strlit("8");
        }
        "8"
    } else if n == 9 {
        proof {
            reveal_strlit("9");
        }
        "9"
    } else if n == 10 {
        proof {
            reveal_strlit("a");
        }
        "a"
    } else if n == 11 {
        proof {
            reveal_strlit("b");
        }
        "b"
    } else if n == 12 {
        proof {
            reveal_strlit("c");
        }
        "c"
    } else if n == 13 {
        proof {
            reveal_strlit("d");
        }
        "d"
    } else if n == 14 {
        proof {
            reveal_strlit("e");
        }
        "e"
    } else {
        proof {
            reveal_strlit("f");
        }
        "f"
    }
}

impl MacAddr {
    /// Decodes a raw byte sequence; it must hold exactly six bytes.
    pub fn from_bytes(b: &[u8]) -> (r: Result<MacAddr, MacAddrError>)
        ensures
            r is Ok <==> b@.len() == 6,
            r matches Ok(m) ==> m.0@ == b@,
            r matches Ok(m) ==> decoded(b@) == Some(m.0@),
            r is Err ==> decoded(b@) is None,
    {
        if b.len() != 6 {
            return Err(MacAddrError::MalformedAddress);
        }
        let m = MacAddr([b[0], b[1], b[2], b[3], b[4], b[5]]);
        assert(m.0@ =~= b@);
        Ok(m)
    }

    /// Parses the text form `xx:xx:xx:xx:xx:xx`, hex digits in either case.
    pub fn parse(s: &str) -> (r: Result<MacAddr, MacAddrError>)
        ensures
            r is Ok <==> is_mac_text(s@),
            r matches Ok(m) ==> m.0@ == bytes_of_text(s@),
            r matches Ok(m) ==> parsed(s@) == Some(m.0@),
            r is Err ==> parsed(s@) is None,
    {
        if !s.is_ascii() {
            proof {
                if is_mac_text(s@) {
                    assert forall|i: int| 0 <= i < s@.len() implies '\0' <= #[trigger] s@[i]
                        <= '\u{7f}' by {
                        if i % 3 == 2 {
                            assert(s@[i] == ':');
                        } else {
                            assert(is_hex_digit(s@[i]));
                        }
                    }
                }
            }
            return Err(MacAddrError::MalformedAddress);
        }
        let b = s.as_bytes();
        proof {
            is_ascii_spec_bytes(s);
        }
        assert(b@.len() == s@.len());
        if b.len() != TEXT_LEN {
            return Err(MacAddrError::MalformedAddress);
        }
        assert forall|i: int| 0 <= i < 17 implies (#[trigger] b@[i]) as char == s@[i] by {
            assert('\0' <= s@[i] <= '\u{7f}');
        }
        let mut arr: [u8; 6] = [0u8; 6];
        let mut k: usize = 0;
        while k < 6
            invariant
                0 <= k <= 6,
                b@.len() == 17,
                s@.len() == 17,
                forall|i: int| 0 <= i < 17 ==> (#[trigger] b@[i]) as char == s@[i],
                forall|i: int|
                    0 <= i < 3 * k && i < 17 ==> if i % 3 == 2 {
                        #[trigger] s@[i] == ':'
                    } else {
                        is_hex_digit(s@[i])
                    },
                forall|j: int| 0 <= j < k ==> arr@[j] == #[trigger] bytes_of_text(s@)[j],
            decreases 6 - k,
        {
            let hi = hex_digit_value(b[3 * k]);
            let lo = hex_digit_value(b[3 * k + 1]);
            let (h, l) = match (hi, lo) {
                (Some(h), Some(l)) => (h, l),
                _ => {
                    return Err(MacAddrError::MalformedAddress);
                },
            };
            if k < 5 && b[3 * k + 2] != COLON {
                assert(s@[3 * k + 2] != ':');
                return Err(MacAddrError::MalformedAddress);
            }
            arr[k] = h * 16 + l;
            k = k + 1;
        }
        let m = MacAddr(arr);
        assert(m.0@ =~= bytes_of_text(s@));
        Ok(m)
    }

    /// The canonical text: six two-digit lowercase hex groups joined by `:`.
    pub fn to_string(&self) -> (r: String)
        ensures
            r@ == text_of(self.0@),
    {
        let ghost t = text_of(self.0@);
        let mut s = String::new();
        let mut k: usize = 0;
        while k < 6
            invariant
                0 <= k <= 6,
                t == text_of(self.0@),
                k == 0 ==> s@.len() == 0,
                k > 0 ==> s@ == t.take(3 * k - 1),
            decreases 6 - k,
        {
            if k > 0 {
                proof {
                    reveal_strlit(":");
                }
                s.append(":");
            }
            let byte = self.0[k];
            s.append(hex_digit_text(byte / 16));
            s.append(hex_digit_text(byte % 16));
            assert(s@ =~= t.take(3 * k + 2));
            k = k + 1;
        }
        assert(s@ =~= t);
        s
    }
}

} // verus!
