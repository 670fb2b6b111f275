//! The IPv4 address value and its canonical dotted-quad byte form.
//!
//! The canonical form of an address is the only string this crate accepts
//! or produces: four decimal octets without leading zeros, joined by dots.
//! `parse` is the exact partial inverse of `serialize`.

use vstd::prelude::*;

verus! {

/// An IPv4 address, held as its four octets.
#[derive(Clone, Copy, PartialEq, Eq, Structural, Debug)]
pub struct Ipv4Address {
    pub a: u8,
    pub b: u8,
    pub c: u8,
    pub d: u8,
}

/// An ASCII decimal digit.
pub open spec fn is_digit(ch: u8) -> bool {
    48 <= ch <= 57
}

/// The shortest decimal representation of one octet: one to three ASCII
/// digits, with no leading zero (zero itself is the single digit `0`).
pub open spec fn octet_rep(n: u8) -> Seq<u8> {
    if n < 10 {
        seq![(n + 48) as u8]
    } else if n < 100 {
        seq![(n / 10 + 48) as u8, (n % 10 + 48) as u8]
    } else {
        seq![(n / 100 + 48) as u8, (n / 10 % 10 + 48) as u8, (n % 10 + 48) as u8]
    }
}

/// The canonical string form of an address, as bytes: the four octet
/// representations joined by `.` (ASCII 46).
pub open spec fn canonical_rep(addr: Ipv4Address) -> Seq<u8> {
    octet_rep(addr.a) + seq![46u8] + octet_rep(addr.b) + seq![46u8] + octet_rep(addr.c)
        + seq![46u8] + octet_rep(addr.d)
}

/// The result of parsing a byte string as an address: the unique address
/// whose canonical form it is, if there is one.
pub open spec fn parse_spec(s: Seq<u8>) -> Option<Ipv4Address> {
    if exists|addr: Ipv4Address| s == canonical_rep(addr) {
        Some(choose|addr: Ipv4Address| s == canonical_rep(addr))
    } else {
        None
    }
}

/// An octet representation is one to three digits and never starts with a
/// superfluous zero.
proof fn lemma_octet_rep_shape(n: u8)
    ensures
        1 <= octet_rep(n).len() <= 3,
        forall|k: int| 0 <= k < octet_rep(n).len() ==> is_digit(#[trigger] octet_rep(n)[k]),
        octet_rep(n).len() >= 2 ==> octet_rep(n)[0] != 48,
{
}

/// The value of an octet can be read back off its representation.
proof fn lemma_octet_rep_value(n: u8)
    ensures
        octet_rep(n).len() == 1 ==> n < 10 && octet_rep(n)[0] == n + 48,
        octet_rep(n).len() == 2 ==> 10 <= n < 100 && octet_rep(n)[0] == n / 10 + 48
            && octet_rep(n)[1] == n % 10 + 48,
        octet_rep(n).len() == 3 ==> 100 <= n && octet_rep(n)[0] == n / 100 + 48
            && octet_rep(n)[1] == n / 10 % 10 + 48 && octet_rep(n)[2] == n % 10 + 48,
{
}

/// Distinct octets have distinct representations.
proof fn lemma_octet_rep_injective(m: u8, n: u8)
    requires
        octet_rep(m) == octet_rep(n),
    ensures
        m == n,
{
    lemma_octet_rep_value(m);
    lemma_octet_rep_value(n);
    assert(octet_rep(m)[0] == octet_rep(n)[0]);
    if octet_rep(m).len() >= 2 {
        assert(octet_rep(m)[1] == octet_rep(n)[1]);
    }
    if octet_rep(m).len() == 3 {
        assert(octet_rep(m)[2] == octet_rep(n)[2]);
    }
}

/// End position of the first octet representation within the canonical form.
pub open spec fn dot1(addr: Ipv4Address) -> int {
    octet_rep(addr.a).len() as int
}

/// Position of the second dot within the canonical form.
pub open spec fn dot2(addr: Ipv4Address) -> int {
    dot1(addr) + 1 + octet_rep(addr.b).len()
}

/// Position of the third dot within the canonical form.
pub open spec fn dot3(addr: Ipv4Address) -> int {
    dot2(addr) + 1 + octet_rep(addr.c).len()
}

/// Length of the canonical form.
pub open spec fn rep_len(addr: Ipv4Address) -> int {
    dot3(addr) + 1 + octet_rep(addr.d).len()
}

/// Where each piece of the canonical form stands: the four octet
/// representations, separated by dots at the three computed positions.
proof fn lemma_canonical_structure(addr: Ipv4Address, s: Seq<u8>)
    requires
        s == canonical_rep(addr),
    ensures
        s.len() == rep_len(addr),
        s.subrange(0, dot1(addr)) == octet_rep(addr.a),
        s[dot1(addr)] == 46,
        s.subrange(dot1(addr) + 1, dot2(addr)) == octet_rep(addr.b),
        s[dot2(addr)] == 46,
        s.subrange(dot2(addr) + 1, dot3(addr)) == octet_rep(addr.c),
        s[dot3(addr)] == 46,
        s.subrange(dot3(addr) + 1, rep_len(addr)) == octet_rep(addr.d),
        1 <= dot1(addr) && dot1(addr) < dot2(addr) && dot2(addr) < dot3(addr)
            && dot3(addr) < rep_len(addr),
{
    lemma_octet_rep_shape(addr.a);
    lemma_octet_rep_shape(addr.b);
    lemma_octet_rep_shape(addr.c);
    lemma_octet_rep_shape(addr.d);
    assert(s.subrange(0, dot1(addr)) =~= octet_rep(addr.a));
    assert(s.subrange(dot1(addr) + 1, dot2(addr)) =~= octet_rep(addr.b));
    assert(s.subrange(dot2(addr) + 1, dot3(addr)) =~= octet_rep(addr.c));
    assert(s.subrange(dot3(addr) + 1, rep_len(addr)) =~= octet_rep(addr.d));
}

/// Distinct addresses have distinct canonical forms.
pub proof fn lemma_canonical_rep_injective(x: Ipv4Address, y: Ipv4Address)
    requires
        canonical_rep(x) == canonical_rep(y),
    ensures
        x == y,
{
    let s = canonical_rep(x);
    lemma_canonical_structure(x, s);
    lemma_canonical_structure(y, s);
    lemma_octet_rep_shape(x.a);
    lemma_octet_rep_shape(y.a);
    lemma_octet_rep_shape(x.b);
    lemma_octet_rep_shape(y.b);
    lemma_octet_rep_shape(x.c);
    lemma_octet_rep_shape(y.c);
    // The first dot stands at the same place in both readings: were one
    // earlier, it would fall among the digits of the other's first octet.
    if dot1(x) < dot1(y) {
        assert(s[dot1(x)] == octet_rep(y.a)[dot1(x)]);
        assert(is_digit(s[dot1(x)]));
    }
    if dot1(y) < dot1(x) {
        assert(s[dot1(y)] == octet_rep(x.a)[dot1(y)]);
        assert(is_digit(s[dot1(y)]));
    }
    assert(dot1(x) == dot1(y));
    lemma_octet_rep_injective(x.a, y.a);
    if dot2(x) < dot2(y) {
        assert(s[dot2(x)] == octet_rep(y.b)[dot2(x) - (dot1(y) + 1)]);
        assert(is_digit(s[dot2(x)]));
    }
    if dot2(y) < dot2(x) {
        assert(s[dot2(y)] == octet_rep(x.b)[dot2(y) - (dot1(x) + 1)]);
        assert(is_digit(s[dot2(y)]));
    }
    assert(dot2(x) == dot2(y));
    lemma_octet_rep_injective(x.b, y.b);
    if dot3(x) < dot3(y) {
        assert(s[dot3(x)] == octet_rep(y.c)[dot3(x) - (dot2(y) + 1)]);
        assert(is_digit(s[dot3(x)]));
    }
    if dot3(y) < dot3(x) {
        assert(s[dot3(y)] == octet_rep(x.c)[dot3(y) - (dot2(x) + 1)]);
        assert(is_digit(s[dot3(y)]));
    }
    assert(dot3(x) == dot3(y));
    lemma_octet_rep_injective(x.c, y.c);
    lemma_octet_rep_injective(x.d, y.d);
}

/// A byte string made of four octet representations with dots at `i1`,
/// `i2` and `i3` is the canonical form of the assembled address, and
/// parses to it.
proof fn lemma_assembled(s: Seq<u8>, addr: Ipv4Address, i1: int, i2: int, i3: int)
    requires
        0 < i1 && i1 + 1 < i2 && i2 + 1 < i3 && i3 + 1 < s.len(),
        s.subrange(0, i1) == octet_rep(addr.a),
        s[i1] == 46,
        s.subrange(i1 + 1, i2) == octet_rep(addr.b),
        s[i2] == 46,
        s.subrange(i2 + 1, i3) == octet_rep(addr.c),
        s[i3] == 46,
        s.subrange(i3 + 1, s.len() as int) == octet_rep(addr.d),
    ensures
        parse_spec(s) == Some(addr),
{
    assert(s =~= canonical_rep(addr));
    lemma_parse_round_trip(addr);
}

/// Law: the canonical form of an address parses back to that address.
pub proof fn lemma_parse_round_trip(addr: Ipv4Address)
    ensures
        parse_spec(canonical_rep(addr)) == Some(addr),
{
    let s = canonical_rep(addr);
    assert(s == canonical_rep(addr));
    let chosen = choose|x: Ipv4Address| s == canonical_rep(x);
    lemma_canonical_rep_injective(chosen, addr);
}

/// Appends the decimal representation of one octet.
fn push_octet(out: &mut Vec<u8>, n: u8)
    ensures
        final(out)@ == old(out)@ + octet_rep(n),
{
    if n >= 100 {
        out.push(n / 100 + 48);
        out.push(n / 10 % 10 + 48);
        out.push(n % 10 + 48);
        assert(out@ =~= old(out)@ + octet_rep(n));
    } else if n >= 10 {
        out.push(n / 10 + 48);
        out.push(n % 10 + 48);
        assert(out@ =~= old(out)@ + octet_rep(n));
    } else {
        out.push(n + 48);
        assert(out@ =~= old(out)@ + octet_rep(n));
    }
}

impl Ipv4Address {
    /// The canonical dotted-quad form of the address, as bytes.
    pub fn serialize(&self) -> (r: Vec<u8>)
        ensures
            r@ == canonical_rep(*self),
    {
        let mut out: Vec<u8> = Vec::new();
        push_octet(&mut out, self.a);
        out.push(46);
        push_octet(&mut out, self.b);
        out.push(46);
        push_octet(&mut out, self.c);
        out.push(46);
        push_octet(&mut out, self.d);
        assert(out@ =~= canonical_rep(*self));
        out
    }
}

/// Reads one octet representation starting at `i`: up to three digits,
/// rejecting a leading zero and values above 255. Returns the octet and
/// the position just past its digits.
///
/// The second clause makes the reader complete: whenever an octet
/// representation stands at `i` followed by the end or a non-digit, it is
/// found, and nothing else is.
fn parse_octet(s: &[u8], i: usize) -> (r: Option<(u8, usize)>)
    requires
        i <= s@.len(),
    ensures
        r matches Some(p) ==> i < p.1 <= s@.len()
            && s@.subrange(i as int, p.1 as int) == octet_rep(p.0),
        forall|n: u8, j: int|
            #![trigger s@.subrange(i as int, j), octet_rep(n)]
            i <= j <= s@.len() && s@.subrange(i as int, j) == octet_rep(n)
                && (j == s@.len() || !is_digit(s@[j])) ==> r == Some((n, j as usize)),
{
    if i == s.len() || !(48 <= s[i] && s[i] <= 57) {
        proof {
            assert forall|n: u8, j: int|
                i <= j <= s@.len() && s@.subrange(i as int, j) == octet_rep(n)
                    && (j == s@.len() || !is_digit(s@[j]))
                implies Option::<(u8, usize)>::None == Some((n, j as usize)) by {
                lemma_octet_rep_shape(n);
                assert(s@.subrange(i as int, j)[0] == s@[i as int]);
                assert(false);
            }
        }
        return None;
    }
    let d0 = s[i] - 48;
    if i + 1 == s.len() || !(48 <= s[i + 1] && s[i + 1] <= 57) {
        let r = Some((d0, i + 1));
        proof {
            assert(s@.subrange(i as int, i + 1) =~= octet_rep(d0));
            assert forall|n: u8, j: int|
                i <= j <= s@.len() && s@.subrange(i as int, j) == octet_rep(n)
                    && (j == s@.len() || !is_digit(s@[j]))
                implies r == Some((n, j as usize)) by {
                lemma_octet_rep_shape(n);
                if j - i >= 2 {
                    assert(s@.subrange(i as int, j)[1] == s@[i + 1]);
                    assert(false);
                }
                lemma_octet_rep_value(n);
                assert(s@.subrange(i as int, j)[0] == s@[i as int]);
            }
        }
        return r;
    }
    if d0 == 0 {
        proof {
            assert forall|n: u8, j: int|
                i <= j <= s@.len() && s@.subrange(i as int, j) == octet_rep(n)
                    && (j == s@.len() || !is_digit(s@[j]))
                implies Option::<(u8, usize)>::None == Some((n, j as usize)) by {
                lemma_octet_rep_shape(n);
                if j - i >= 2 {
                    assert(s@.subrange(i as int, j)[0] == s@[i as int]);
                } else {
                    assert(j == i + 1);
                    assert(is_digit(s@[i + 1]));
                }
                assert(false);
            }
        }
        return None;
    }
    let d1 = s[i + 1] - 48;
    if i + 2 == s.len() || !(48 <= s[i + 2] && s[i + 2] <= 57) {
        let v2 = 10 * d0 + d1;
        let r = Some((v2, i + 2));
        proof {
            assert(s@.subrange(i as int, i + 2) =~= octet_rep(v2));
            assert forall|n: u8, j: int|
                i <= j <= s@.len() && s@.subrange(i as int, j) == octet_rep(n)
                    && (j == s@.len() || !is_digit(s@[j]))
                implies r == Some((n, j as usize)) by {
                lemma_octet_rep_shape(n);
                if j == i + 1 {
                    assert(is_digit(s@[i + 1]));
                    assert(false);
                }
                if j - i == 3 {
                    assert(s@.subrange(i as int, j)[2] == s@[i + 2]);
                    assert(false);
                }
                lemma_octet_rep_value(n);
                assert(s@.subrange(i as int, j)[0] == s@[i as int]);
                assert(s@.subrange(i as int, j)[1] == s@[i + 1]);
            }
        }
        return r;
    }
    let d2 = s[i + 2] - 48;
    let val: u16 = 100 * (d0 as u16) + 10 * (d1 as u16) + (d2 as u16);
    if val > 255 {
        proof {
            assert forall|n: u8, j: int|
                i <= j <= s@.len() && s@.subrange(i as int, j) == octet_rep(n)
                    && (j == s@.len() || !is_digit(s@[j]))
                implies Option::<(u8, usize)>::None == Some((n, j as usize)) by {
                lemma_octet_rep_shape(n);
                if j == i + 1 || j == i + 2 {
                    assert(is_digit(s@[j]));
                    assert(false);
                }
                lemma_octet_rep_value(n);
                assert(s@.subrange(i as int, j)[0] == s@[i as int]);
                assert(s@.subrange(i as int, j)[1] == s@[i + 1]);
                assert(s@.subrange(i as int, j)[2] == s@[i + 2]);
                assert(false);
            }
        }
        return None;
    }
    let r = Some((val as u8, i + 3));
    proof {
        assert(s@.subrange(i as int, i + 3) =~= octet_rep(val as u8));
        assert forall|n: u8, j: int|
            i <= j <= s@.len() && s@.subrange(i as int, j) == octet_rep(n)
                && (j == s@.len() || !is_digit(s@[j]))
            implies r == Some((n, j as usize)) by {
            lemma_octet_rep_shape(n);
            if j == i + 1 || j == i + 2 {
                assert(is_digit(s@[j]));
                assert(false);
            }
            lemma_octet_rep_value(n);
            assert(s@.subrange(i as int, j)[0] == s@[i as int]);
            assert(s@.subrange(i as int, j)[1] == s@[i + 1]);
            assert(s@.subrange(i as int, j)[2] == s@[i + 2]);
        }
    }
    r
}

/// Parses the canonical dotted-quad form of an address. Returns the
/// address whose canonical form `s` is, and `None` for every other input.
pub fn parse(s: &[u8]) -> (r: Option<Ipv4Address>)
    ensures
        r == parse_spec(s@),
{
    let slen = s.len();
    let r1 = parse_octet(s, 0);
    proof {
        assert forall|addr: Ipv4Address| s@ == canonical_rep(addr) implies (r1 == Some((
            addr.a,
            dot1(addr) as usize,
        )) && s@[dot1(addr)] == 46 && 0 < dot1(addr) < s@.len()) by {
            lemma_canonical_structure(addr, s@);
        }
    }
    let (a, i1) = match r1 {
        Some(p) => p,
        None => {
            return None;
        },
    };
    if i1 == slen || s[i1] != 46 {
        return None;
    }
    let r2 = parse_octet(s, i1 + 1);
    proof {
        assert forall|addr: Ipv4Address| s@ == canonical_rep(addr) implies (r2 == Some((
            addr.b,
            dot2(addr) as usize,
        )) && s@[dot2(addr)] == 46 && dot2(addr) < s@.len()) by {
            lemma_canonical_structure(addr, s@);
            assert(i1 as int == dot1(addr));
            assert(s@.subrange(i1 as int + 1, dot2(addr)) == octet_rep(addr.b));
        }
    }
    let (b, i2) = match r2 {
        Some(p) => p,
        None => {
            return None;
        },
    };
    if i2 == slen || s[i2] != 46 {
        return None;
    }
    let r3 = parse_octet(s, i2 + 1);
    proof {
        assert forall|addr: Ipv4Address| s@ == canonical_rep(addr) implies (r3 == Some((
            addr.c,
            dot3(addr) as usize,
        )) && s@[dot3(addr)] == 46 && dot3(addr) < s@.len()) by {
            lemma_canonical_structure(addr, s@);
            assert(i2 as int == dot2(addr));
            assert(s@.subrange(i2 as int + 1, dot3(addr)) == octet_rep(addr.c));
        }
    }
    let (c, i3) = match r3 {
        Some(p) => p,
        None => {
            return None;
        },
    };
    if i3 == slen || s[i3] != 46 {
        return None;
    }
    let r4 = parse_octet(s, i3 + 1);
    proof {
        assert forall|addr: Ipv4Address| s@ == canonical_rep(addr) implies (r4 == Some((
            addr.d,
            rep_len(addr) as usize,
        )) && rep_len(addr) == s@.len()) by {
            lemma_canonical_structure(addr, s@);
            assert(i3 as int == dot3(addr));
            assert(s@.subrange(i3 as int + 1, rep_len(addr)) == octet_rep(addr.d));
        }
    }
    let (d, i4) = match r4 {
        Some(p) => p,
        None => {
            return None;
        },
    };
    if i4 != slen {
        return None;
    }
    let found = Ipv4Address { a, b, c, d };
    proof {
        lemma_assembled(s@, found, i1 as int, i2 as int, i3 as int);
    }
    Some(found)
}

} // verus!
