//! Endpoints, and how they are written and read as text.

use vstd::prelude::*;

verus! {

/// What an [`Endpoint`] stands for: the address as characters, and the port.
pub struct EndpointView {
    pub addr: Seq<char>,
    pub port: u32,
}

/// One server instance.
#[derive(Debug, Eq, Hash)]
pub struct Endpoint {
    pub addr: String,
    pub port: u32,
}

impl View for Endpoint {
    type V = EndpointView;

    open spec fn view(&self) -> EndpointView {
        EndpointView { addr: self.addr@, port: self.port }
    }
}

impl Clone for Endpoint {
    fn clone(&self) -> (r: Self)
        ensures
            r@ == self@,
    {
        Endpoint { addr: self.addr.clone(), port: self.port }
    }
}

impl PartialEq for Endpoint {
    fn eq(&self, other: &Self) -> (r: bool) {
        self.addr == other.addr && self.port == other.port
    }
}

impl vstd::std_specs::cmp::PartialEqSpecImpl for Endpoint {
    open spec fn obeys_eq_spec() -> bool {
        true
    }

    open spec fn eq_spec(&self, other: &Self) -> bool {
        self.addr@ == other.addr@ && self.port == other.port
    }
}

/// What a [`Route`] stands for.
pub struct RouteView {
    pub table: Seq<char>,
    pub endpoint: Option<EndpointView>,
}

/// What the default endpoint says of one table: the endpoint that serves it,
/// or none, which leaves the table to the default endpoint.
#[derive(Debug)]
pub struct Route {
    pub table: String,
    pub endpoint: Option<Endpoint>,
}

impl View for Route {
    type V = RouteView;

    open spec fn view(&self) -> RouteView {
        RouteView {
            table: self.table@,
            endpoint: match self.endpoint {
                Some(e) => Some(e@),
                None => None,
            },
        }
    }
}

impl Clone for Route {
    fn clone(&self) -> (r: Self)
        ensures
            r@ == self@,
    {
        Route {
            table: self.table.clone(),
            endpoint: match &self.endpoint {
                Some(e) => Some(e.clone()),
                None => None,
            },
        }
    }
}

/// The tables as characters.
pub open spec fn names(tables: Seq<String>) -> Seq<Seq<char>> {
    tables.map_values(|t: String| t@)
}

/// The routes as what they stand for.
pub open spec fn route_views(routes: Seq<Route>) -> Seq<RouteView> {
    routes.map_values(|r: Route| r@)
}

/// The endpoints as what they stand for.
pub open spec fn endpoint_views(endpoints: Seq<Option<Endpoint>>) -> Seq<Option<EndpointView>> {
    endpoints.map_values(
        |e: Option<Endpoint>|
            match e {
                Some(e) => Some(e@),
                None => None,
            },
    )
}

/// Why a text is not a number that fits in 32 bits.
#[derive(Debug, Clone, Copy, PartialEq, Eq, Structural)]
pub enum NumberError {
    Empty,
    InvalidDigit,
    TooLarge,
}

impl NumberError {
    pub open spec fn text(self) -> Seq<char> {
        match self {
            NumberError::Empty => "cannot parse integer from empty string"@,
            NumberError::InvalidDigit => "invalid digit found in string"@,
            NumberError::TooLarge => "number too large to fit in target type"@,
        }
    }

    fn message(self) -> (r: &'static str)
        ensures
            r@ == self.text(),
    {
        match self {
            NumberError::Empty => "cannot parse integer from empty string",
            NumberError::InvalidDigit => "invalid digit found in string",
            NumberError::TooLarge => "number too large to fit in target type",
        }
    }
}

pub open spec fn is_digit(c: char) -> bool {
    '0' <= c && c <= '9'
}

pub open spec fn digit_of(c: char) -> int {
    c as int - '0' as int
}

pub open spec fn digit_char(d: int) -> char {
    if d == 0 {
        '0'
    } else if d == 1 {
        '1'
    } else if d == 2 {
        '2'
    } else if d == 3 {
        '3'
    } else if d == 4 {
        '4'
    } else if d == 5 {
        '5'
    } else if d == 6 {
        '6'
    } else if d == 7 {
        '7'
    } else if d == 8 {
        '8'
    } else {
        '9'
    }
}

/// The decimal numeral of `n`, without leading zeros.
pub open spec fn decimal(n: nat) -> Seq<char>
    decreases n,
{
    if n < 10 {
        seq![digit_char(n as int)]
    } else {
        decimal(n / 10).push(digit_char((n % 10) as int))
    }
}

/// Reads `s` from the left as decimal digits that continue the number `acc`.
/// The first character that is no digit, or the first digit with which the
/// number no longer fits in 32 bits, decides the error.
pub open spec fn read_digits(s: Seq<char>, acc: u32) -> Result<u32, NumberError>
    decreases s.len(),
{
    if s.len() == 0 {
        Ok(acc)
    } else if !is_digit(s[0]) {
        Err(NumberError::InvalidDigit)
    } else if acc * 10 + digit_of(s[0]) > u32::MAX {
        Err(NumberError::TooLarge)
    } else {
        read_digits(s.skip(1), (acc * 10 + digit_of(s[0])) as u32)
    }
}

/// The number that a text denotes: decimal digits, with at most one `+` in
/// front of them.
pub open spec fn parse_u32(s: Seq<char>) -> Result<u32, NumberError> {
    if s.len() == 0 {
        Err(NumberError::Empty)
    } else {
        let digits = if s[0] == '+' {
            s.skip(1)
        } else {
            s
        };
        if digits.len() == 0 {
            Err(NumberError::InvalidDigit)
        } else {
            read_digits(digits, 0)
        }
    }
}

/// The index of the last `c` in `s`.
pub open spec fn last_index_of(s: Seq<char>, c: char) -> Option<int>
    decreases s.len(),
{
    if s.len() == 0 {
        None
    } else if s.last() == c {
        Some(s.len() - 1)
    } else {
        last_index_of(s.drop_last(), c)
    }
}

/// The largest port that an endpoint can have.
pub const MAX_PORT: u32 = 65535;

/// The endpoint that a text of the form `addr:port` denotes, or the reason
/// why it denotes none. The text is split at its last colon.
pub open spec fn parse_endpoint(s: Seq<char>) -> Result<EndpointView, Seq<char>> {
    match last_index_of(s, ':') {
        None => Err("Can't find ':' in the source string"@),
        Some(colon) => {
            let addr = s.subrange(0, colon);
            let raw_port = s.subrange(colon + 1, s.len() as int);
            if addr.len() == 0 {
                Err("Empty addr in the source string"@)
            } else {
                match parse_u32(raw_port) {
                    Err(e) => Err("Fail to parse port:"@ + raw_port + ", err:"@ + e.text()),
                    Ok(port) => if port > MAX_PORT {
                        Err("Too large port (<=65536)"@)
                    } else {
                        Ok(EndpointView { addr, port })
                    },
                }
            }
        },
    }
}

/// The text of an endpoint: address, colon, port.
pub open spec fn endpoint_text(e: EndpointView) -> Seq<char> {
    e.addr + seq![':'] + decimal(e.port as nat)
}

/// The numeral of a number is made of digits, and has one at least.
pub proof fn lemma_decimal_is_digits(n: nat)
    ensures
        decimal(n).len() > 0,
        forall|i: int| 0 <= i < decimal(n).len() ==> is_digit(#[trigger] decimal(n)[i]),
    decreases n,
{
    if n >= 10 {
        lemma_decimal_is_digits(n / 10);
    }
}

/// Reading one more digit continues the number that was read.
proof fn lemma_read_one_more(s: Seq<char>, c: char, acc: u32)
    requires
        is_digit(c),
    ensures
        read_digits(s.push(c), acc) == match read_digits(s, acc) {
            Ok(v) => if v * 10 + digit_of(c) > u32::MAX {
                Err(NumberError::TooLarge)
            } else {
                Ok((v * 10 + digit_of(c)) as u32)
            },
            Err(e) => Err(e),
        },
    decreases s.len(),
{
    if s.len() == 0 {
        assert(s.push(c).skip(1) == Seq::<char>::empty());
        assert(read_digits(s.push(c).skip(1), (acc * 10 + digit_of(c)) as u32) == Ok::<
            u32,
            NumberError,
        >((acc * 10 + digit_of(c)) as u32)) by {
            reveal_with_fuel(read_digits, 2);
        }
    } else {
        assert(s.push(c)[0] == s[0]);
        assert(s.push(c).skip(1) == s.skip(1).push(c));
        if is_digit(s[0]) && acc * 10 + digit_of(s[0]) <= u32::MAX {
            lemma_read_one_more(s.skip(1), c, (acc * 10 + digit_of(s[0])) as u32);
        }
    }
}

/// The numeral of a number reads as the number.
pub proof fn lemma_decimal_reads_back(n: nat)
    requires
        n <= u32::MAX,
    ensures
        parse_u32(decimal(n)) == Ok::<u32, NumberError>(n as u32),
    decreases n,
{
    lemma_decimal_is_digits(n);
    if n < 10 {
        let s = decimal(n);
        assert(s.skip(1) == Seq::<char>::empty());
        assert(digit_of(s[0]) == n);
        reveal_with_fuel(read_digits, 2);
    } else {
        lemma_decimal_reads_back(n / 10);
        lemma_decimal_is_digits(n / 10);
        let head = decimal(n / 10);
        let last = digit_char((n % 10) as int);
        assert(digit_of(last) == n % 10);
        assert(head[0] != '+');
        lemma_read_one_more(head, last, 0);
        assert(decimal(n)[0] == head[0]);
    }
}

/// The last colon of a text that ends in a colon and digits is that colon.
proof fn lemma_colon_before_digits(front: Seq<char>, digits: Seq<char>)
    requires
        forall|i: int| 0 <= i < digits.len() ==> is_digit(#[trigger] digits[i]),
    ensures
        last_index_of(front + seq![':'] + digits, ':') == Some(front.len() as int),
    decreases digits.len(),
{
    let text = front + seq![':'] + digits;
    if digits.len() == 0 {
        assert(text.last() == ':');
    } else {
        assert(text.last() == digits.last());
        assert(is_digit(digits[digits.len() - 1]));
        assert(text.drop_last() == front + seq![':'] + digits.drop_last());
        lemma_colon_before_digits(front, digits.drop_last());
    }
}

/// An endpoint is read back from its text: for every endpoint with an
/// address and a port up to 65535, reading what it is written as gives the
/// endpoint.
pub proof fn lemma_endpoint_text_reads_back(e: EndpointView)
    requires
        e.addr.len() > 0,
        e.port <= MAX_PORT,
    ensures
        parse_endpoint(endpoint_text(e)) == Ok::<EndpointView, Seq<char>>(e),
{
    let digits = decimal(e.port as nat);
    let text = endpoint_text(e);
    lemma_decimal_is_digits(e.port as nat);
    lemma_decimal_reads_back(e.port as nat);
    lemma_colon_before_digits(e.addr, digits);
    assert(text.subrange(0, e.addr.len() as int) == e.addr);
    assert(text.subrange(e.addr.len() as int + 1, text.len() as int) == digits);
}

/// `String::push`: appends the given char to the end of the string.
#[verifier::external_body]
fn string_push(s: &mut String, c: char)
    ensures
        final(s)@ == old(s)@.push(c),
{
    s.push(c)
}

fn digit_to_char(d: u32) -> (c: char)
    requires
        d < 10,
    ensures
        c == digit_char(d as int),
{
    if d == 0 {
        '0'
    } else if d == 1 {
        '1'
    } else if d == 2 {
        '2'
    } else if d == 3 {
        '3'
    } else if d == 4 {
        '4'
    } else if d == 5 {
        '5'
    } else if d == 6 {
        '6'
    } else if d == 7 {
        '7'
    } else if d == 8 {
        '8'
    } else {
        '9'
    }
}

/// Appends the decimal numeral of `n` to `s`.
pub fn push_decimal(s: &mut String, n: u32)
    ensures
        final(s)@ == old(s)@ + decimal(n as nat),
    decreases n,
{
    if n >= 10 {
        push_decimal(s, n / 10);
    }
    string_push(s, digit_to_char(n % 10));
}

fn parse_port(raw: &str) -> (r: Result<u32, NumberError>)
    ensures
        r == parse_u32(raw@),
{
    let n = raw.unicode_len();
    if n == 0 {
        return Err(NumberError::Empty);
    }
    let start: usize = if raw.get_char(0) == '+' {
        1
    } else {
        0
    };
    if start == n {
        return Err(NumberError::InvalidDigit);
    }
    let mut i: usize = start;
    let mut acc: u32 = 0;
    assert(start == 0 ==> raw@.skip(0) == raw@);
    while i < n
        invariant
            start <= i <= n,
            n == raw@.len(),
            parse_u32(raw@) == read_digits(raw@.skip(i as int), acc),
        decreases n - i,
    {
        let c = raw.get_char(i);
        let ghost rest = raw@.skip(i as int);
        assert(rest[0] == c);
        assert(rest.skip(1) == raw@.skip(i + 1));
        if !(c >= '0' && c <= '9') {
            return Err(NumberError::InvalidDigit);
        }
        let d: u64 = c as u64 - '0' as u64;
        let next: u64 = acc as u64 * 10 + d;
        if next > u32::MAX as u64 {
            return Err(NumberError::TooLarge);
        }
        acc = next as u32;
        i += 1;
    }
    Ok(acc)
}

/// Finds the last `c` of `s`.
fn rfind_char(s: &str, c: char) -> (r: Option<usize>)
    ensures
        match r {
            Some(i) => last_index_of(s@, c) == Some(i as int) && i < s@.len(),
            None => last_index_of(s@, c) is None,
        },
{
    let mut i: usize = s.unicode_len();
    assert(s@.subrange(0, i as int) == s@);
    while i > 0
        invariant
            i <= s@.len(),
            last_index_of(s@, c) == last_index_of(s@.subrange(0, i as int), c),
        decreases i,
    {
        let ghost head = s@.subrange(0, i as int);
        assert(head.last() == s@[i - 1]);
        assert(head.drop_last() == s@.subrange(0, i - 1));
        if s.get_char(i - 1) == c {
            return Some(i - 1);
        }
        i -= 1;
    }
    assert(s@.subrange(0, 0).len() == 0);
    None
}

impl Endpoint {
    pub fn new(ip: String, port: u32) -> (r: Self)
        ensures
            r.addr == ip,
            r.port == port,
    {
        Self { addr: ip, port }
    }

    /// The endpoint as text: address, colon, port.
    pub fn to_string(&self) -> (r: String)
        ensures
            r@ == endpoint_text(self@),
    {
        let mut text = self.addr.clone();
        string_push(&mut text, ':');
        push_decimal(&mut text, self.port);
        text
    }

    /// Reads an endpoint from a text of the form `addr:port`. The address is
    /// all that stands before the last colon and may not be empty; the port
    /// is a decimal number up to 65535.
    pub fn parse(s: &str) -> (r: Result<Endpoint, String>)
        ensures
            match r {
                Ok(e) => parse_endpoint(s@) == Ok::<EndpointView, Seq<char>>(e@),
                Err(msg) => parse_endpoint(s@) == Err::<EndpointView, Seq<char>>(msg@),
            },
    {
        let colon = match rfind_char(s, ':') {
            Some(i) => i,
            None => {
                return Err(String::from_str("Can't find ':' in the source string"));
            },
        };
        let n = s.unicode_len();
        let addr = s.substring_char(0, colon);
        let raw_port = s.substring_char(colon + 1, n);
        if addr.unicode_len() == 0 {
            return Err(String::from_str("Empty addr in the source string"));
        }
        match parse_port(raw_port) {
            Err(e) => {
                let mut msg = String::from_str("Fail to parse port:");
                msg.append(raw_port);
                msg.append(", err:");
                msg.append(e.message());
                Err(msg)
            },
            Ok(port) => {
                if port > MAX_PORT {
                    Err(String::from_str("Too large port (<=65536)"))
                } else {
                    Ok(Endpoint { addr: String::from_str(addr), port })
                }
            },
        }
    }
}

impl std::str::FromStr for Endpoint {
    type Err = String;

    fn from_str(s: &str) -> (r: Result<Self, String>)
        ensures
            match r {
                Ok(e) => parse_endpoint(s@) == Ok::<EndpointView, Seq<char>>(e@),
                Err(msg) => parse_endpoint(s@) == Err::<EndpointView, Seq<char>>(msg@),
            },
    {
        Endpoint::parse(s)
    }
}

} // verus!
