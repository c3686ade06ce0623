//! Port mappings of the client, written `[client_port:][host:]port`.

use vstd::prelude::*;
use vstd::string::StrSliceExecFns;

verus! {

/// One port mapping: the client listens on `client_port` (or on `port`) and
/// the server dials `host` (or its default address) on `port`.
#[derive(Debug, Clone, PartialEq, Eq)]
pub struct TcpWarpPortConnection {
    pub client_port: Option<u16>,
    pub host: Option<String>,
    pub port: u16,
}

/// The mathematical value of a port mapping.
pub struct PortMapping {
    pub client_port: Option<u16>,
    pub host: Option<Seq<char>>,
    pub port: u16,
}

impl View for TcpWarpPortConnection {
    type V = PortMapping;

    open spec fn view(&self) -> PortMapping {
        PortMapping {
            client_port: self.client_port,
            host: match self.host {
                Some(h) => Some(h@),
                None => None,
            },
            port: self.port,
        }
    }
}

impl TcpWarpPortConnection {
    /// The port the client listens on.
    pub open spec fn spec_listen_port(&self) -> u16 {
        match self.client_port {
            Some(p) => p,
            None => self.port,
        }
    }

    /// The port the client listens on: `client_port`, or else `port`.
    pub fn listen_port(&self) -> (r: u16)
        ensures
            r == self.spec_listen_port(),
    {
        match self.client_port {
            Some(p) => p,
            None => self.port,
        }
    }
}

/// A port mapping that cannot be parsed.
#[derive(Debug, Clone, Copy, PartialEq, Eq)]
pub struct PortMappingError;

impl PortMappingError {
    /// The message that describes the error.
    pub fn message(&self) -> (r: String)
        ensures
            r@ == "cannot parse port mapping"@,
    {
        String::from_str("cannot parse port mapping")
    }
}

/// The pieces of `s` between its `:` characters (one piece when there is
/// none).
pub open spec fn split_colons(s: Seq<char>) -> Seq<Seq<char>>
    decreases s.len(),
{
    if s.len() == 0 {
        seq![Seq::empty()]
    } else {
        let p = split_colons(s.drop_last());
        if s.last() == ':' {
            p.push(Seq::empty())
        } else {
            p.update(p.len() - 1, p.last().push(s.last()))
        }
    }
}

pub open spec fn is_digit(c: char) -> bool {
    '0' <= c <= '9'
}

/// The value of a decimal digit.
pub open spec fn digit_value(c: char) -> nat {
    ((c as u32) - ('0' as u32)) as nat
}

/// The number that a sequence of decimal digits writes.
pub open spec fn digits_value(d: Seq<char>) -> nat
    decreases d.len(),
{
    if d.len() == 0 {
        0
    } else {
        digits_value(d.drop_last()) * 10 + digit_value(d.last())
    }
}

/// The digits of a decimal number: an optional `+` sign dropped.
pub open spec fn unsigned_digits(s: Seq<char>) -> Seq<char> {
    if s.len() > 0 && s[0] == '+' {
        s.drop_first()
    } else {
        s
    }
}

/// The `u16` that `s` writes in decimal, with an optional `+` sign.
pub open spec fn parse_u16(s: Seq<char>) -> Option<u16> {
    let d = unsigned_digits(s);
    if d.len() > 0 && (forall|i: int| 0 <= i < d.len() ==> is_digit(#[trigger] d[i]))
        && digits_value(d) <= 0xffff {
        Some(digits_value(d) as u16)
    } else {
        None
    }
}

/// The port mapping that `s` writes: `port`, `client_port:port`,
/// `host:port` (where `host` is not a port) or `client_port:host:port`.
pub open spec fn parse_mapping(s: Seq<char>) -> Option<PortMapping> {
    let p = split_colons(s);
    if p.len() == 1 {
        match parse_u16(p[0]) {
            Some(port) => Some(PortMapping { client_port: None, host: None, port }),
            None => None,
        }
    } else if p.len() == 2 {
        match (parse_u16(p[0]), parse_u16(p[1])) {
            (_, None) => None,
            (Some(c), Some(port)) => Some(PortMapping { client_port: Some(c), host: None, port }),
            (None, Some(port)) => Some(PortMapping { client_port: None, host: Some(p[0]), port }),
        }
    } else if p.len() == 3 {
        match (parse_u16(p[0]), parse_u16(p[2])) {
            (Some(c), Some(port)) => Some(
                PortMapping { client_port: Some(c), host: Some(p[1]), port },
            ),
            _ => None,
        }
    } else {
        None
    }
}

/// Parses the decimal `u16` in the characters `from..to` of `s`.
fn parse_u16_in(s: &str, from: usize, to: usize) -> (r: Option<u16>)
    requires
        from <= to <= s@.len(),
    ensures
        r == parse_u16(s@.subrange(from as int, to as int)),
{
    let ghost t = s@.subrange(from as int, to as int);
    let mut start = from;
    if from < to && s.get_char(from) == '+' {
        start = from + 1;
    }
    let ghost d = s@.subrange(start as int, to as int);
    assert(d =~= unsigned_digits(t));
    if start == to {
        return None;
    }
    let mut value: u32 = 0;
    let mut i: usize = start;
    while i < to
        invariant
            start <= i <= to <= s@.len(),
            d == s@.subrange(start as int, to as int),
            t == s@.subrange(from as int, to as int),
            d == unsigned_digits(t),
            d.len() > 0,
            forall|k: int| 0 <= k < i - start ==> is_digit(#[trigger] d[k]),
            value as nat == if digits_value(d.take(i - start) ) <= 0xffff {
                digits_value(d.take(i - start))
            } else {
                0x10000
            },
        decreases to - i,
    {
        let c = s.get_char(i);
        if !('0' <= c && c <= '9') {
            assert(!is_digit(d[i - start]));
            return None;
        }
        let ghost prev = digits_value(d.take(i - start));
        assert(d.take(i - start + 1).drop_last() =~= d.take(i - start));
        let digit = (c as u32) - ('0' as u32);
        let next = value * 10 + digit;
        assert(prev > 0xffff ==> prev * 10 + digit > 0xffff) by (nonlinear_arith);
        value = if next > 0xffff {
            0x10000
        } else {
            next
        };
        i = i + 1;
    }
    assert(d.take(d.len() as int) =~= d);
    if value > 0xffff {
        None
    } else {
        Some(value as u16)
    }
}

/// Parses a port mapping: `port`, `client_port:port`, `host:port` (where
/// `host` is not a port) or `client_port:host:port`.
pub fn parse_port_mapping(s: &str) -> (r: Result<TcpWarpPortConnection, PortMappingError>)
    ensures
        match r {
            Ok(c) => parse_mapping(s@) == Some(c@),
            Err(_) => parse_mapping(s@) is None,
        },
{
    let len = s.unicode_len();
    // (start, end) of each finished piece, and where the current one starts
    let mut cuts: Vec<(usize, usize)> = Vec::new();
    let mut start: usize = 0;
    let mut i: usize = 0;
    while i < len
        invariant
            len == s@.len(),
            start <= i <= len,
            cuts@.len() + 1 == split_colons(s@.take(i as int)).len(),
            forall|k: int| 0 <= k < cuts@.len() ==> #[trigger] cuts@[k].0 <= cuts@[k].1 <= len,
            forall|k: int|
                0 <= k < cuts@.len() ==> s@.subrange(cuts@[k].0 as int, cuts@[k].1 as int)
                    == #[trigger] split_colons(s@.take(i as int))[k],
            s@.subrange(start as int, i as int) == split_colons(s@.take(i as int)).last(),
        decreases len - i,
    {
        let ghost before = split_colons(s@.take(i as int));
        assert(s@.take(i + 1).drop_last() =~= s@.take(i as int));
        let ghost old_cuts = cuts@;
        let ghost after = split_colons(s@.take(i + 1));
        if s.get_char(i) == ':' {
            assert(after == before.push(Seq::empty()));
            cuts.push((start, i));
            start = i + 1;
            assert(s@.subrange(start as int, i + 1) =~= Seq::<char>::empty());
        } else {
            assert(after == before.update(before.len() - 1, before.last().push(s@[i as int])));
            assert(s@.subrange(start as int, i + 1) =~= s@.subrange(start as int, i as int).push(
                s@[i as int],
            ));
        }
        i = i + 1;
        assert(split_colons(s@.take(i as int)) == after);
        assert forall|k: int| 0 <= k < cuts@.len() implies s@.subrange(
            cuts@[k].0 as int,
            cuts@[k].1 as int,
        ) == #[trigger] split_colons(s@.take(i as int))[k] by {
            assert(after[k] == before[k]);
            if k < old_cuts.len() {
                assert(cuts@[k] == old_cuts[k]);
            } else {
                assert(before[k] == before.last());
            }
        }
    }
    assert(s@.take(len as int) =~= s@);
    let n = cuts.len();
    if n == 0 {
        match parse_u16_in(s, start, len) {
            Some(port) => Ok(TcpWarpPortConnection { client_port: None, host: None, port }),
            None => Err(PortMappingError),
        }
    } else if n == 1 {
        let (a, b) = cuts[0];
        let port = match parse_u16_in(s, start, len) {
            Some(port) => port,
            None => {
                return Err(PortMappingError);
            },
        };
        match parse_u16_in(s, a, b) {
            Some(client_port) => Ok(
                TcpWarpPortConnection { client_port: Some(client_port), host: None, port },
            ),
            None => Ok(
                TcpWarpPortConnection {
                    client_port: None,
                    host: Some(s.substring_char(a, b).to_owned()),
                    port,
                },
            ),
        }
    } else if n == 2 {
        let (a, b) = cuts[0];
        let (c, d) = cuts[1];
        match (parse_u16_in(s, a, b), parse_u16_in(s, start, len)) {
            (Some(client_port), Some(port)) => Ok(
                TcpWarpPortConnection {
                    client_port: Some(client_port),
                    host: Some(s.substring_char(c, d).to_owned()),
                    port,
                },
            ),
            _ => Err(PortMappingError),
        }
    } else {
        Err(PortMappingError)
    }
}

impl core::str::FromStr for TcpWarpPortConnection {
    type Err = PortMappingError;

    fn from_str(s: &str) -> Result<TcpWarpPortConnection, PortMappingError> {
        parse_port_mapping(s)
    }
}

/// The decimal digit that writes `n`, for `n < 10`.
pub open spec fn digit_char(n: nat) -> char {
    seq!['0', '1', '2', '3', '4', '5', '6', '7', '8', '9'][n as int]
}

/// `n` written in decimal, without leading zeros.
pub open spec fn decimal(n: nat) -> Seq<char>
    decreases n,
{
    if n < 10 {
        seq![digit_char(n)]
    } else {
        decimal(n / 10).push(digit_char(n % 10))
    }
}

/// The text of a port mapping: `port`, `client_port:port`, `host:port` or
/// `client_port:host:port`, each port in decimal.
pub open spec fn render_mapping(m: PortMapping) -> Seq<char> {
    let port = decimal(m.port as nat);
    match (m.client_port, m.host) {
        (None, None) => port,
        (Some(c), None) => decimal(c as nat) + seq![':'] + port,
        (None, Some(h)) => h + seq![':'] + port,
        (Some(c), Some(h)) => decimal(c as nat) + seq![':'] + h + seq![':'] + port,
    }
}

pub open spec fn has_no_colon(s: Seq<char>) -> bool {
    forall|i: int| 0 <= i < s.len() ==> #[trigger] s[i] != ':'
}

/// A mapping that its text gives back: a host holds no `:` and, when no
/// client port is there, does not read as a port.
pub open spec fn is_normal(m: PortMapping) -> bool {
    m.host matches Some(h) ==> has_no_colon(h) && (m.client_port is None ==> parse_u16(h) is None)
}

proof fn lemma_split_append_plain(x: Seq<char>, y: Seq<char>)
    requires
        has_no_colon(y),
    ensures
        split_colons(x + y) == split_colons(x).update(
            split_colons(x).len() - 1,
            split_colons(x).last() + y,
        ),
        split_colons(x).len() >= 1,
    decreases y.len(),
{
    lemma_split_len(x);
    if y.len() == 0 {
        assert(x + y =~= x);
        assert(split_colons(x).last() + y =~= split_colons(x).last());
        assert(split_colons(x).update(split_colons(x).len() - 1, split_colons(x).last())
            =~= split_colons(x));
    } else {
        let y0 = y.drop_last();
        lemma_split_append_plain(x, y0);
        assert((x + y).drop_last() =~= x + y0);
        assert((x + y).last() == y.last());
        assert(split_colons(x).last() + y =~= (split_colons(x).last() + y0).push(y.last()));
        let p = split_colons(x);
        let q = p.update(p.len() - 1, p.last() + y0);
        assert(q.update(q.len() - 1, q.last().push(y.last())) =~= p.update(
            p.len() - 1,
            p.last() + y,
        ));
    }
}

proof fn lemma_split_len(x: Seq<char>)
    ensures
        split_colons(x).len() >= 1,
    decreases x.len(),
{
    if x.len() > 0 {
        lemma_split_len(x.drop_last());
    }
}

proof fn lemma_split_colon(x: Seq<char>)
    ensures
        split_colons(x + seq![':']) == split_colons(x).push(Seq::empty()),
{
    assert((x + seq![':']).drop_last() =~= x);
}

proof fn lemma_split_plain(a: Seq<char>)
    requires
        has_no_colon(a),
    ensures
        split_colons(a) == seq![a],
{
    lemma_split_append_plain(Seq::empty(), a);
    assert(Seq::<char>::empty() + a =~= a);
    assert(Seq::<char>::empty() + a =~= a);
    assert(seq![Seq::<char>::empty()].update(0, Seq::<char>::empty() + a) =~= seq![a]);
}

proof fn lemma_split_two(a: Seq<char>, b: Seq<char>)
    requires
        has_no_colon(a),
        has_no_colon(b),
    ensures
        split_colons(a + seq![':'] + b) == seq![a, b],
{
    lemma_split_plain(a);
    lemma_split_colon(a);
    lemma_split_append_plain(a + seq![':'], b);
    assert(Seq::<char>::empty() + b =~= b);
    assert(seq![a, Seq::<char>::empty()].update(1, Seq::<char>::empty() + b) =~= seq![a, b]);
}

proof fn lemma_split_three(a: Seq<char>, b: Seq<char>, c: Seq<char>)
    requires
        has_no_colon(a),
        has_no_colon(b),
        has_no_colon(c),
    ensures
        split_colons(a + seq![':'] + b + seq![':'] + c) == seq![a, b, c],
{
    lemma_split_two(a, b);
    lemma_split_colon(a + seq![':'] + b);
    lemma_split_append_plain(a + seq![':'] + b + seq![':'], c);
    assert(Seq::<char>::empty() + c =~= c);
    assert(seq![a, b, Seq::<char>::empty()].update(2, Seq::<char>::empty() + c) =~= seq![
        a,
        b,
        c,
    ]);
}

proof fn lemma_digit_char(n: nat)
    requires
        n < 10,
    ensures
        is_digit(digit_char(n)),
        digit_value(digit_char(n)) == n,
{
    assert(n == 0 || n == 1 || n == 2 || n == 3 || n == 4 || n == 5 || n == 6 || n == 7 || n == 8
        || n == 9);
}

/// Decimal text reads back as its number.
proof fn lemma_decimal(n: nat)
    ensures
        decimal(n).len() > 0,
        forall|i: int| 0 <= i < decimal(n).len() ==> is_digit(#[trigger] decimal(n)[i]),
        digits_value(decimal(n)) == n,
    decreases n,
{
    if n < 10 {
        lemma_digit_char(n);
        let d = seq![digit_char(n)];
        assert(d.drop_last() =~= Seq::<char>::empty());
        assert(d.last() == digit_char(n));
        assert(digits_value(d) == digits_value(d.drop_last()) * 10 + digit_value(d.last()));
        assert(digits_value(Seq::<char>::empty()) == 0);
    } else {
        lemma_decimal(n / 10);
        lemma_digit_char(n % 10);
        let d = decimal(n);
        assert(d.drop_last() =~= decimal(n / 10));
        assert(d.last() == digit_char(n % 10));
        assert(digits_value(d) == digits_value(d.drop_last()) * 10 + digit_value(d.last()));
        assert((n / 10) * 10 + n % 10 == n) by (nonlinear_arith);
    }
}

proof fn lemma_parse_decimal(n: u16)
    ensures
        parse_u16(decimal(n as nat)) == Some(n),
        has_no_colon(decimal(n as nat)),
{
    lemma_decimal(n as nat);
    let d = decimal(n as nat);
    assert(d[0] != '+');
    assert(unsigned_digits(d) == d);
    assert forall|i: int| 0 <= i < d.len() implies #[trigger] d[i] != ':' by {
        assert(is_digit(d[i]));
    }
}

/// A port mapping in its normal form parses back from its text.
pub proof fn lemma_port_mapping_round_trip(m: PortMapping)
    requires
        is_normal(m),
    ensures
        parse_mapping(render_mapping(m)) == Some(m),
{
    lemma_parse_decimal(m.port);
    let port = decimal(m.port as nat);
    match (m.client_port, m.host) {
        (None, None) => {
            lemma_split_plain(port);
        },
        (Some(c), None) => {
            lemma_parse_decimal(c);
            lemma_split_two(decimal(c as nat), port);
        },
        (None, Some(h)) => {
            lemma_split_two(h, port);
        },
        (Some(c), Some(h)) => {
            lemma_parse_decimal(c);
            lemma_split_three(decimal(c as nat), h, port);
        },
    }
}

} // verus!
