//! IPv4 addresses as four octets, and their dotted decimal text.
use crate::text::{self, push_digits, split_text, to_chars};
use vstd::prelude::*;

verus! {

/// An IPv4 address: four octets, the most significant first.
#[derive(Debug, Clone, Copy, PartialEq, Eq, Structural)]
pub struct Ipv4Addr {
    pub a: u8,
    pub b: u8,
    pub c: u8,
    pub d: u8,
}

impl DeepView for Ipv4Addr {
    type V = Ipv4Addr;

    open spec fn deep_view(&self) -> Ipv4Addr {
        *self
    }
}

/// The address in dotted decimal, such as `10.96.0.10`.
pub open spec fn dotted(ip: Ipv4Addr) -> Seq<char> {
    text::digits(ip.a as nat) + seq!['.'] + text::digits(ip.b as nat) + seq!['.'] + text::digits(
        ip.c as nat,
    ) + seq!['.'] + text::digits(ip.d as nat)
}

/// The address that a text spells in dotted decimal, if it spells one.
pub open spec fn address(s: Seq<char>) -> Option<Ipv4Addr> {
    if exists|ip: Ipv4Addr| dotted(ip) == s {
        Some(choose|ip: Ipv4Addr| dotted(ip) == s)
    } else {
        None
    }
}

/// The address as one number, the first octet on top.
pub open spec fn bits(ip: Ipv4Addr) -> u32 {
    (ip.a * 0x100_0000 + ip.b * 0x1_0000 + ip.c * 0x100 + ip.d) as u32
}

/// The octets in order.
pub open spec fn octet_seq(ip: Ipv4Addr) -> Seq<u8> {
    seq![ip.a, ip.b, ip.c, ip.d]
}

/// An address of the loopback network, `127.0.0.0/8`.
pub open spec fn loopback(ip: Ipv4Addr) -> bool {
    ip.a == 127
}

/// The address `0.0.0.0`.
pub open spec fn unspecified(ip: Ipv4Addr) -> bool {
    ip == Ipv4Addr { a: 0, b: 0, c: 0, d: 0 }
}

impl Ipv4Addr {
    pub fn new(a: u8, b: u8, c: u8, d: u8) -> (ip: Ipv4Addr)
        ensures
            ip == (Ipv4Addr { a, b, c, d }),
    {
        Ipv4Addr { a, b, c, d }
    }

    /// The four octets in order.
    pub fn octets(&self) -> (res: Vec<u8>)
        ensures
            res@ == octet_seq(*self),
    {
        let mut res: Vec<u8> = Vec::new();
        res.push(self.a);
        res.push(self.b);
        res.push(self.c);
        res.push(self.d);
        res
    }

    /// The address as one number.
    pub fn to_bits(&self) -> (res: u32)
        ensures
            res == bits(*self),
    {
        self.a as u32 * 0x100_0000 + self.b as u32 * 0x1_0000 + self.c as u32 * 0x100
            + self.d as u32
    }

    /// The address with the given number.
    pub fn from_bits(n: u32) -> (ip: Ipv4Addr)
        ensures
            bits(ip) == n,
    {
        Ipv4Addr {
            a: (n / 0x100_0000) as u8,
            b: (n / 0x1_0000 % 0x100) as u8,
            c: (n / 0x100 % 0x100) as u8,
            d: (n % 0x100) as u8,
        }
    }

    pub fn is_loopback(&self) -> (res: bool)
        ensures
            res == loopback(*self),
    {
        self.a == 127
    }

    pub fn is_unspecified(&self) -> (res: bool)
        ensures
            res == unspecified(*self),
    {
        self.a == 0 && self.b == 0 && self.c == 0 && self.d == 0
    }

    /// Appends the dotted decimal text.
    pub fn push_dotted(&self, s: &mut String)
        ensures
            final(s)@ == old(s)@ + dotted(*self),
    {
        push_digits(s, self.a as u64);
        s.push('.');
        push_digits(s, self.b as u64);
        s.push('.');
        push_digits(s, self.c as u64);
        s.push('.');
        push_digits(s, self.d as u64);
        assert(s@ =~= old(s)@ + dotted(*self));
    }

    /// The dotted decimal text.
    pub fn to_text(&self) -> (s: String)
        ensures
            s@ == dotted(*self),
    {
        let mut s = String::new();
        self.push_dotted(&mut s);
        assert(s@ =~= dotted(*self));
        s
    }

    /// Reads dotted decimal: four numbers from 0 to 255 without leading zeros, separated by dots,
    /// and nothing else.
    pub fn parse(s: &str) -> (res: Option<Ipv4Addr>)
        ensures
            res == address(s@),
            res matches Some(ip) ==> dotted(ip) == s@,
            res is None ==> forall|ip: Ipv4Addr| dotted(ip) != s@,
    {
        let parts = split_text(s, '.');
        proof {
            assert forall|ip: Ipv4Addr| dotted(ip) == s@ implies parts.deep_view() == octet_texts(ip)
                && parts.deep_view().len() == 4 by {
                lemma_dotted_parts(ip);
                assert(octet_texts(ip).len() == 4);
            }
            assert(parts.deep_view().len() == parts@.len());
        }
        if parts.len() != 4 {
            return None;
        }
        assert(parts.deep_view() =~= seq![parts@[0]@, parts@[1]@, parts@[2]@, parts@[3]@]);
        let a = octet(parts[0].as_str());
        let b = octet(parts[1].as_str());
        let c = octet(parts[2].as_str());
        let d = octet(parts[3].as_str());
        if let (Some(a), Some(b), Some(c), Some(d)) = (a, b, c, d) {
            let ip = Ipv4Addr { a, b, c, d };
            proof {
                assert(parts.deep_view() =~= octet_texts(ip));
                lemma_dotted_parts(ip);
                text::lemma_join_split(s@, '.');
                assert(dotted(ip) == s@);
                assert forall|other: Ipv4Addr| dotted(other) == s@ implies other == ip by {
                    lemma_dotted_injective(ip, other);
                }
            }
            Some(ip)
        } else {
            proof {
                assert forall|ip: Ipv4Addr| dotted(ip) != s@ by {
                    if dotted(ip) == s@ {
                        assert(parts.deep_view() == octet_texts(ip));
                        assert(parts.deep_view()[0] == text::digits(ip.a as nat));
                        assert(parts.deep_view()[1] == text::digits(ip.b as nat));
                        assert(parts.deep_view()[2] == text::digits(ip.c as nat));
                        assert(parts.deep_view()[3] == text::digits(ip.d as nat));
                    }
                }
            }
            None
        }
    }
}

/// The four numbers of the dotted decimal text.
spec fn octet_texts(ip: Ipv4Addr) -> Seq<Seq<char>> {
    seq![
        text::digits(ip.a as nat),
        text::digits(ip.b as nat),
        text::digits(ip.c as nat),
        text::digits(ip.d as nat),
    ]
}

proof fn lemma_short_digits(n: nat)
    requires
        n < 1000,
    ensures
        n < 10 ==> text::digits(n) == seq![text::digit(n as int)],
        10 <= n < 100 ==> text::digits(n) == seq![text::digit(n as int / 10), text::digit(n as int % 10)],
        100 <= n ==> text::digits(n) == seq![
            text::digit(n as int / 100),
            text::digit(n as int / 10 % 10),
            text::digit(n as int % 10),
        ],
{
    reveal_with_fuel(text::digits, 4);
}

/// A text that is not one to three digits, or has a leading zero, spells no octet.
proof fn lemma_octet_shape(v: u8)
    ensures
        1 <= text::digits(v as nat).len() <= 3,
        forall|k: int| 0 <= k < text::digits(v as nat).len() ==> '0' <= #[trigger] text::digits(v as nat)[k] <= '9',
        text::digits(v as nat).len() > 1 ==> text::digits(v as nat)[0] != '0',
        text::digits(v as nat).len() == 1 ==> v == text::digits(v as nat)[0] as int - '0' as int,
        text::digits(v as nat).len() == 2 ==> v == (text::digits(v as nat)[0] as int - '0' as int) * 10 + (
        text::digits(v as nat)[1] as int - '0' as int),
        text::digits(v as nat).len() == 3 ==> v == (text::digits(v as nat)[0] as int - '0' as int) * 100 + (
        text::digits(v as nat)[1] as int - '0' as int) * 10 + (text::digits(v as nat)[2] as int - '0' as int),
{
    lemma_short_digits(v as nat);
}

/// Reads a number from 0 to 255 without leading zeros.
fn octet(part: &str) -> (res: Option<u8>)
    ensures
        res matches Some(v) ==> text::digits(v as nat) == part@,
        res is None ==> forall|v: u8| text::digits(v as nat) != part@,
{
    let chars = to_chars(part);
    let n: usize = chars.len();
    proof {
        assert forall|v: u8| text::digits(v as nat) == part@ implies 1 <= n <= 3 by {
            lemma_octet_shape(v);
        }
    }
    if n == 0 || n > 3 {
        return None;
    }
    let mut value: u32 = 0;
    let mut i: usize = 0;
    while i < n
        invariant
            n == chars@.len(),
            chars@ == part@,
            1 <= n <= 3,
            i <= n,
            forall|k: int| 0 <= k < i ==> '0' <= #[trigger] chars@[k] <= '9',
            i == 0 ==> value == 0,
            i == 1 ==> value == chars@[0] as int - '0' as int,
            i == 2 ==> value == (chars@[0] as int - '0' as int) * 10 + (chars@[1] as int - '0' as int),
            i == 3 ==> value == (chars@[0] as int - '0' as int) * 100 + (chars@[1] as int - '0' as int)
                * 10 + (chars@[2] as int - '0' as int),
        decreases n - i,
    {
        let c = chars[i];
        if c < '0' || c > '9' {
            proof {
                assert forall|v: u8| text::digits(v as nat) != part@ by {
                    lemma_octet_shape(v);
                    if text::digits(v as nat) == part@ {
                        assert(text::digits(v as nat)[i as int] == c);
                    }
                }
            }
            return None;
        }
        value = value * 10 + (c as u32 - 48);
        i += 1;
    }
    proof {
        assert forall|v: u8| text::digits(v as nat) == part@ implies v == value && !(n > 1 && chars@[0] == '0') by {
            lemma_octet_shape(v);
        }
    }
    if n > 1 && chars[0] == '0' {
        return None;
    }
    if value > 255 {
        return None;
    }
    proof {
        lemma_short_digits(value as nat);
        assert(text::digits(value as nat) =~= part@);
    }
    Some(value as u8)
}

proof fn lemma_digits_without_dot(n: nat)
    ensures
        !text::digits(n).contains('.'),
    decreases n,
{
    if n >= 10 {
        lemma_digits_without_dot(n / 10);
        let init = text::digits(n / 10);
        let all = text::digits(n);
        if all.contains('.') {
            let k = choose|k: int| 0 <= k < all.len() && all[k] == '.';
            assert(k < init.len());
            assert(init[k] == '.');
        }
    }
}

proof fn lemma_dotted_parts(ip: Ipv4Addr)
    ensures
        text::split(dotted(ip), '.') == octet_texts(ip),
        text::join(octet_texts(ip), seq!['.']) == dotted(ip),
{
    let parts = octet_texts(ip);
    lemma_digits_without_dot(ip.a as nat);
    lemma_digits_without_dot(ip.b as nat);
    lemma_digits_without_dot(ip.c as nat);
    lemma_digits_without_dot(ip.d as nat);
    let dot = seq!['.'];
    let three = parts.drop_last();
    let two = three.drop_last();
    let one = two.drop_last();
    assert(text::join(one, dot) == text::digits(ip.a as nat));
    assert(text::join(two, dot) == text::digits(ip.a as nat) + dot + text::digits(ip.b as nat));
    assert(text::join(three, dot) == text::join(two, dot) + dot + text::digits(ip.c as nat));
    assert(text::join(parts, dot) == text::join(three, dot) + dot + text::digits(ip.d as nat));
    text::lemma_split_join(parts, '.');
}

proof fn lemma_digits_injective(m: nat, n: nat)
    requires
        text::digits(m) == text::digits(n),
    ensures
        m == n,
    decreases m,
{
    assert(text::digits(m).last() == text::digit((m % 10) as int));
    assert(text::digits(n).last() == text::digit((n % 10) as int));
    if m >= 10 && n >= 10 {
        assert(text::digits(m).drop_last() =~= text::digits(m / 10));
        assert(text::digits(n).drop_last() =~= text::digits(n / 10));
        lemma_digits_injective(m / 10, n / 10);
    } else if m >= 10 {
        lemma_digits_nonempty(m / 10);
    } else if n >= 10 {
        lemma_digits_nonempty(n / 10);
    }
}

proof fn lemma_digits_nonempty(n: nat)
    ensures
        text::digits(n).len() >= 1,
{
}

/// Two addresses with the same dotted decimal text are the same address.
pub proof fn lemma_dotted_injective(x: Ipv4Addr, y: Ipv4Addr)
    requires
        dotted(x) == dotted(y),
    ensures
        x == y,
{
    lemma_dotted_parts(x);
    lemma_dotted_parts(y);
    let p = octet_texts(x);
    let q = octet_texts(y);
    assert(p[0] == q[0] && p[1] == q[1] && p[2] == q[2] && p[3] == q[3]);
    lemma_digits_injective(x.a as nat, y.a as nat);
    lemma_digits_injective(x.b as nat, y.b as nat);
    lemma_digits_injective(x.c as nat, y.c as nat);
    lemma_digits_injective(x.d as nat, y.d as nat);
}

/// Reading the dotted decimal text of an address gives the address back.
pub proof fn law_dotted_read_back(ip: Ipv4Addr)
    ensures
        address(dotted(ip)) == Some(ip),
{
    let found = choose|other: Ipv4Addr| dotted(other) == dotted(ip);
    lemma_dotted_injective(found, ip);
}

/// No two addresses share a number.
pub proof fn law_bits_injective(x: Ipv4Addr, y: Ipv4Addr)
    requires
        bits(x) == bits(y),
    ensures
        x == y,
{
    lemma_low_octet(x.a * 0x1_0000 + x.b * 0x100 + x.c, x.d, y.a * 0x1_0000 + y.b * 0x100 + y.c, y.d);
    lemma_low_octet(x.a * 0x100 + x.b, x.c, y.a * 0x100 + y.b, y.c);
    lemma_low_octet(x.a as int, x.b, y.a as int, y.b);
}

proof fn lemma_low_octet(high1: int, low1: u8, high2: int, low2: u8)
    requires
        high1 * 0x100 + low1 == high2 * 0x100 + low2,
    ensures
        high1 == high2,
        low1 == low2,
{
}

/// A text is read as an address only where it is exactly the dotted decimal text of that address.
pub proof fn law_only_dotted_text_is_read(s: Seq<char>)
    ensures
        address(s) matches Some(ip) ==> dotted(ip) == s,
        address(s) is None ==> forall|ip: Ipv4Addr| #[trigger] dotted(ip) != s,
{
}

/// The dotted decimal text is four numbers separated by dots, and they stand for the octets in order.
pub proof fn law_dotted_spells_octets(ip: Ipv4Addr)
    ensures
        text::split(dotted(ip), '.').len() == 4,
        text::value_of(text::split(dotted(ip), '.')[0]) == ip.a,
        text::value_of(text::split(dotted(ip), '.')[1]) == ip.b,
        text::value_of(text::split(dotted(ip), '.')[2]) == ip.c,
        text::value_of(text::split(dotted(ip), '.')[3]) == ip.d,
{
    lemma_dotted_parts(ip);
    text::law_digits_stand_for_number(ip.a as nat);
    text::law_digits_stand_for_number(ip.b as nat);
    text::law_digits_stand_for_number(ip.c as nat);
    text::law_digits_stand_for_number(ip.d as nat);
}

/// The number of an address has the octets as its digits to the base 256, the first one on top, and
/// its bytes are the octets in order.
pub proof fn law_bits_are_octets(ip: Ipv4Addr)
    ensures
        bits(ip) == ((ip.a * 256 + ip.b) * 256 + ip.c) * 256 + ip.d,
        octet_seq(ip) == seq![ip.a, ip.b, ip.c, ip.d],
{
}

/// The loopback addresses are those whose first octet is 127, and the unspecified address is the one
/// whose octets are all zero.
pub proof fn law_special_addresses(ip: Ipv4Addr)
    ensures
        loopback(ip) <==> ip.a == 127,
        unspecified(ip) <==> ip.a == 0 && ip.b == 0 && ip.c == 0 && ip.d == 0,
{
}

} // verus!
