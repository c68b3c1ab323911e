//! Network-layer addresses and their decimal rendering.

use vstd::prelude::*;
use vstd::string::StringExecFns;

verus! {

broadcast use vstd::array::group_array_axioms;

/// An IP address: four bytes for IPv4, sixteen for IPv6.
///
/// Two addresses are equal iff they carry the same tag and the same bytes;
/// an IPv4 address is never identified with an IPv4-mapped IPv6 address.
#[derive(Clone, Copy, Debug)]
pub enum Ip {
    V4([u8; 4]),
    V6([u8; 16]),
}

impl PartialEq for Ip {
    fn eq(&self, other: &Ip) -> (r: bool)
        ensures
            r <==> *self == *other,
    {
        match (self, other) {
            (Ip::V4(a), Ip::V4(b)) => {
                let r = eq_bytes(a.as_slice(), b.as_slice());
                proof {
                    if a@ == b@ {
                        assert(*a =~= *b);
                    }
                }
                r
            },
            (Ip::V6(a), Ip::V6(b)) => {
                let r = eq_bytes(a.as_slice(), b.as_slice());
                proof {
                    if a@ == b@ {
                        assert(*a =~= *b);
                    }
                }
                r
            },
            _ => false,
        }
    }
}

impl Eq for Ip {}

impl vstd::std_specs::cmp::PartialEqSpecImpl for Ip {
    open spec fn obeys_eq_spec() -> bool {
        true
    }

    open spec fn eq_spec(&self, other: &Ip) -> bool {
        *self == *other
    }
}

/// The decimal digit characters of `n`, most significant first, without
/// leading zeros (a single `'0'` for zero).
pub open spec fn dec_digits(n: nat) -> Seq<char>
    decreases n,
{
    if n < 10 {
        seq![digit_char(n)]
    } else {
        dec_digits(n / 10).push(digit_char(n % 10))
    }
}

/// The character of one decimal digit.
pub open spec fn digit_char(d: nat) -> char {
    if d == 0 {
        '0'
    } else if d == 1 {
        '1'
    } else if d == 2 {
        '2'
    } else if d == 3 {
        '3'
    } else if d == 4 {
        '4'
    } else if d == 5 {
        '5'
    } else if d == 6 {
        '6'
    } else if d == 7 {
        '7'
    } else if d == 8 {
        '8'
    } else {
        '9'
    }
}

/// The rendering of a byte sequence: the decimal value of each byte, joined
/// by single dots.
pub open spec fn dec_bytes(s: Seq<u8>) -> Seq<char>
    decreases s.len(),
{
    if s.len() == 0 {
        Seq::empty()
    } else if s.len() == 1 {
        dec_digits(s[0] as nat)
    } else {
        dec_bytes(s.drop_last()) + seq!['.'] + dec_digits(s.last() as nat)
    }
}

/// The rendering of an address: its bytes in decimal, dot-joined, for both
/// families.
pub open spec fn dec_ip(ip: Ip) -> Seq<char> {
    match ip {
        Ip::V4(a) => dec_bytes(a@),
        Ip::V6(a) => dec_bytes(a@),
    }
}

impl Ip {
    /// Renders the address as its dot-joined decimal byte values.
    pub fn render(&self) -> (s: String)
        ensures
            s@ == dec_ip(*self),
    {
        match self {
            Ip::V4(a) => render_bytes(a.as_slice()),
            Ip::V6(a) => render_bytes(a.as_slice()),
        }
    }
}

/// One decimal digit as a string slice.
fn digit_str(d: u64) -> (s: &'static str)
    requires
        d < 10,
    ensures
        s@ == seq![digit_char(d as nat)],
{
    proof {
        reveal_strlit("0");
        reveal_strlit("1");
        reveal_strlit("2");
        reveal_strlit("3");
        reveal_strlit("4");
        reveal_strlit("5");
        reveal_strlit("6");
        reveal_strlit("7");
        reveal_strlit("8");
        reveal_strlit("9");
    }
    let s = match d {
        0 => "0",
        1 => "1",
        2 => "2",
        3 => "3",
        4 => "4",
        5 => "5",
        6 => "6",
        7 => "7",
        8 => "8",
        _ => "9",
    };
    proof {
        assert(s@ =~= seq![digit_char(d as nat)]);
    }
    s
}

/// The decimal rendering of an unsigned number.
pub fn dec_string(n: u64) -> (s: String)
    ensures
        s@ == dec_digits(n as nat),
    decreases n,
{
    if n < 10 {
        digit_str(n).to_owned()
    } else {
        let mut s = dec_string(n / 10);
        s.append(digit_str(n % 10));
        proof {
            assert(s@ =~= dec_digits(n as nat));
        }
        s
    }
}

/// The dot-joined decimal rendering of a byte slice.
fn render_bytes(v: &[u8]) -> (s: String)
    ensures
        s@ == dec_bytes(v@),
{
    if v.len() == 0 {
        return String::new();
    }
    let n = v.len();
    let mut s = dec_string(v[0] as u64);
    proof {
        assert(v@.take(1)[0] == v@[0]);
        assert(s@ =~= dec_bytes(v@.take(1)));
    }
    for i in 1..n
        invariant
            n == v@.len(),
            s@ == dec_bytes(v@.take(i as int)),
    {
        s.append(".");
        let d = dec_string(v[i] as u64);
        s.append(d.as_str());
        proof {
            reveal_strlit(".");
            assert(v@.take(i + 1).drop_last() =~= v@.take(i as int));
            assert(v@.take(i + 1).last() == v@[i as int]);
            assert(s@ =~= dec_bytes(v@.take(i + 1)));
        }
    }
    proof {
        assert(v@.take(n as int) =~= v@);
    }
    s
}

/// Byte-wise comparison of two equally long slices.
fn eq_bytes(a: &[u8], b: &[u8]) -> (r: bool)
    requires
        a@.len() == b@.len(),
    ensures
        r <==> a@ == b@,
{
    let n = a.len();
    for i in 0..n
        invariant
            n == a@.len(),
            n == b@.len(),
            forall|j: int| 0 <= j < i ==> a@[j] == b@[j],
    {
        if a[i] != b[i] {
            assert(a@ != b@);
            return false;
        }
    }
    assert(a@ =~= b@);
    true
}

} // verus!
