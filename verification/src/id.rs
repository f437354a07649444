use vstd::prelude::*;
use vstd::string::StringSliceAdditionalSpecFns;

verus! {

/// A fixed-width content identifier: twenty bytes, usually written as
/// forty hexadecimal digits.
#[derive(Clone, Debug)]
pub struct Id {
    bytes: Vec<u8>,
}

/// Whether a byte is an ASCII hexadecimal digit, in either letter case.
pub open spec fn is_hex_digit(b: u8) -> bool {
    (48 <= b && b <= 57) || (97 <= b && b <= 102) || (65 <= b && b <= 70)
}

/// The value of an ASCII hexadecimal digit; zero for any other byte.
pub open spec fn hex_nibble(b: u8) -> u8 {
    if 48 <= b && b <= 57 {
        (b - 48) as u8
    } else if 97 <= b && b <= 102 {
        (b - 87) as u8
    } else if 65 <= b && b <= 70 {
        (b - 55) as u8
    } else {
        0
    }
}

/// The bytes spelled by a sequence of hexadecimal digits: two digits per
/// byte, high nibble first. `None` when the length is odd or any
/// character is not a digit.
pub open spec fn hex_bytes(s: Seq<u8>) -> Option<Seq<u8>> {
    if s.len() % 2 == 0 && (forall|i: int| 0 <= i < s.len() ==> is_hex_digit(s[i])) {
        Some(
            Seq::new(
                s.len() / 2,
                |i: int| (hex_nibble(s[2 * i]) * 16 + hex_nibble(s[2 * i + 1])) as u8,
            ),
        )
    } else {
        None
    }
}

/// The value of one hexadecimal digit byte, if it is one.
fn hex_digit_value(b: u8) -> (r: Option<u8>)
    ensures
        r is Some <==> is_hex_digit(b),
        r matches Some(v) ==> v == hex_nibble(b) && v < 16,
{
    if 48 <= b && b <= 57 {
        Some(b - 48)
    } else if 97 <= b && b <= 102 {
        Some(b - 87)
    } else if 65 <= b && b <= 70 {
        Some(b - 55)
    } else {
        None
    }
}

impl View for Id {
    type V = Seq<u8>;

    closed spec fn view(&self) -> Seq<u8> {
        self.bytes@
    }
}

impl Id {
    /// A well-formed identifier holds exactly twenty bytes.
    pub open spec fn wf(&self) -> bool {
        self@.len() == 20
    }

    /// Builds an identifier from its twenty raw bytes; `None` when the
    /// slice has any other length.
    pub fn from_bytes(bytes: &[u8]) -> (r: Option<Id>)
        ensures
            r is Some <==> bytes@.len() == 20,
            r matches Some(id) ==> id@ == bytes@ && id.wf(),
    {
        if bytes.len() == 20 {
            Some(Id { bytes: vstd::slice::slice_to_vec(bytes) })
        } else {
            None
        }
    }

    /// Builds an identifier from forty hexadecimal digits; `None` when
    /// the string has another length or a character that is no digit.
    pub fn from_str(s: &str) -> (r: Option<Id>)
        ensures
            r is Some <==> s.spec_bytes().len() == 40 && hex_bytes(s.spec_bytes()) is Some,
            r matches Some(id) ==> Some(id@) == hex_bytes(s.spec_bytes()) && id.wf(),
    {
        let digits: &[u8] = s.as_bytes();
        if digits.len() != 40 {
            return None;
        }
        let ghost d: Seq<u8> = digits@;
        let mut out: Vec<u8> = Vec::new();
        let mut i: usize = 0;
        while i < 20
            invariant
                digits@ == d,
                d == s.spec_bytes(),
                d.len() == 40,
                i <= 20,
                out@.len() == i,
                forall|j: int| 0 <= j < 2 * i ==> is_hex_digit(d[j]),
                forall|j: int|
                    0 <= j < i ==> out@[j] == (hex_nibble(d[2 * j]) * 16 + hex_nibble(
                        d[2 * j + 1],
                    )) as u8,
            decreases 20 - i,
        {
            let hi = match hex_digit_value(digits[2 * i]) {
                Some(v) => v,
                None => {
                    proof {
                        let sb = s.spec_bytes();
                        assert(!is_hex_digit(sb[2 * i as int]));
                        assert(!(forall|j: int| 0 <= j < sb.len() ==> is_hex_digit(sb[j])));
                    }
                    return None;
                },
            };
            let lo = match hex_digit_value(digits[2 * i + 1]) {
                Some(v) => v,
                None => {
                    proof {
                        let sb = s.spec_bytes();
                        assert(!is_hex_digit(sb[2 * i as int + 1]));
                        assert(!(forall|j: int| 0 <= j < sb.len() ==> is_hex_digit(sb[j])));
                    }
                    return None;
                },
            };
            out.push(hi * 16 + lo);
            i = i + 1;
        }
        proof {
            let bs = hex_bytes(d);
            assert(bs is Some);
            assert(bs matches Some(v) ==> v =~= out@);
        }
        Some(Id { bytes: out })
    }

    /// Whether two identifiers hold the same bytes.
    pub fn same_as(&self, other: &Id) -> (r: bool)
        ensures
            r <==> self@ == other@,
    {
        if self.bytes.len() != other.bytes.len() {
            return false;
        }
        let mut i: usize = 0;
        while i < self.bytes.len()
            invariant
                self@.len() == other@.len(),
                i <= self@.len(),
                forall|j: int| 0 <= j < i ==> self@[j] == other@[j],
            decreases self@.len() - i,
        {
            if self.bytes[i] != other.bytes[i] {
                return false;
            }
            i = i + 1;
        }
        proof {
            assert(self@ =~= other@);
        }
        true
    }

    /// The identifier's bytes.
    pub fn as_bytes(&self) -> (r: &[u8])
        ensures
            r@ == self@,
    {
        self.bytes.as_slice()
    }
}

} // verus!
