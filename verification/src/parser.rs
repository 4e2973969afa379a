//! The interactive command parser: whitespace-separated tokens, the first of
//! which names the command, turned into one [`Input`] value.

use vstd::prelude::*;

use crate::message::{Input, InputV};

verus! {

/// A recoverable input error; the supervisor's state is never touched.
#[derive(Clone, Copy, Debug, PartialEq, Eq, Structural)]
pub enum Error {
    /// Nothing to parse.
    Empty,
    /// The first token names no command.
    UnknownCommand,
    /// The input stopped where a token was needed.
    UnexpectedEnd,
    /// The token at this position (counted from one) has the wrong shape.
    InvalidParam(usize),
    /// A scan was asked for with no host given and none stored.
    HostNotSpecified,
    /// This port value lies outside `[0, 65535]`.
    InvalidPort(usize),
}

/// What the parser remembers between lines: the default host of the prompt
/// and whether the scanner is stopped automatically on interrupt.
#[derive(Debug)]
pub struct ReplConfig {
    pub host: Option<String>,
    pub autostop: bool,
}

/// The mathematical image of a [`ReplConfig`].
#[verifier::ext_equal]
pub struct ReplConfigV {
    pub host: Option<Seq<char>>,
    pub autostop: bool,
}

impl View for ReplConfig {
    type V = ReplConfigV;

    open spec fn view(&self) -> ReplConfigV {
        ReplConfigV {
            host: match self.host {
                Some(ref h) => Some(h@),
                None => None,
            },
            autostop: self.autostop,
        }
    }
}

impl ReplConfigV {
    /// The state a fresh parser starts from, and what `parse` leaves behind.
    pub open spec fn empty() -> ReplConfigV {
        ReplConfigV { host: None, autostop: false }
    }
}

impl Default for ReplConfig {
    fn default() -> (r: Self)
        ensures
            r@ == ReplConfigV::empty(),
    {
        ReplConfig { host: None, autostop: false }
    }
}

/// One token of a command line.
enum Token {
    Int(usize),
    Str(String),
    Boolean(bool),
    Tcp,
    Udp,
    EOF,
}

/// The mathematical image of a [`Token`].
pub enum TokenV {
    Int(usize),
    Str(Seq<char>),
    Boolean(bool),
    Tcp,
    Udp,
    EOF,
}

impl View for Token {
    type V = TokenV;

    closed spec fn view(&self) -> TokenV {
        match self {
            Token::Int(v) => TokenV::Int(*v),
            Token::Str(s) => TokenV::Str(s@),
            Token::Boolean(b) => TokenV::Boolean(*b),
            Token::Tcp => TokenV::Tcp,
            Token::Udp => TokenV::Udp,
            Token::EOF => TokenV::EOF,
        }
    }
}

/// An ASCII decimal digit.
pub open spec fn is_digit(c: char) -> bool {
    '0' <= c && c <= '9'
}

/// The number a digit string denotes.
pub open spec fn digits_val(s: Seq<char>) -> nat
    decreases s.len(),
{
    if s.len() == 0 {
        0
    } else {
        digits_val(s.drop_last()) * 10 + (s.last() as u32 - '0' as u32) as nat
    }
}

/// The digit part of a number token: everything after an optional leading
/// plus sign.
pub open spec fn digit_part(s: Seq<char>) -> Seq<char> {
    if s.len() > 0 && s[0] == '+' {
        s.drop_first()
    } else {
        s
    }
}

/// Whether the standard library would read this string as a `usize`: an
/// optional plus sign, then at least one digit, with the value in range.
pub open spec fn is_usize_str(s: Seq<char>) -> bool {
    let d = digit_part(s);
    &&& d.len() > 0
    &&& forall|i: int| 0 <= i < d.len() ==> is_digit(#[trigger] d[i])
    &&& digits_val(d) <= usize::MAX
}

/// Whether `a` equals `b` once ASCII upper-case letters in `a` are lowered;
/// `b` is a lower-case keyword.
pub open spec fn lower_eq(a: Seq<char>, b: Seq<char>) -> bool {
    &&& a.len() == b.len()
    &&& forall|i: int| 0 <= i < a.len() ==> lower_char_eq(#[trigger] a[i], b[i])
}

/// One character of a keyword comparison: equal outright, or an ASCII
/// capital whose lower-case form matches.
pub open spec fn lower_char_eq(x: char, y: char) -> bool {
    x == y || ('A' <= x && x <= 'Z' && x as u32 + 32 == y as u32)
}

/// What a field reads as: a number if the standard library would accept it,
/// else one of the keywords `true`, `false`, `tcp`, `udp` (ASCII
/// case-insensitively), else itself.
pub open spec fn token_of(f: Seq<char>) -> TokenV {
    if is_usize_str(f) {
        TokenV::Int(digits_val(digit_part(f)) as usize)
    } else if lower_eq(f, "true"@) {
        TokenV::Boolean(true)
    } else if lower_eq(f, "false"@) {
        TokenV::Boolean(false)
    } else if lower_eq(f, "tcp"@) {
        TokenV::Tcp
    } else if lower_eq(f, "udp"@) {
        TokenV::Udp
    } else {
        TokenV::Str(f)
    }
}

/// The position of the first space, if any.
pub open spec fn first_space(s: Seq<char>) -> Option<int>
    decreases s.len(),
{
    if s.len() == 0 {
        None
    } else if s[0] == ' ' {
        Some(0)
    } else {
        match first_space(s.drop_first()) {
            Some(j) => Some(j + 1),
            None => None,
        }
    }
}

/// Splitting on single spaces, keeping empty pieces, as `str::split(' ')`
/// does; the empty string yields one empty field.
pub open spec fn split_fields(s: Seq<char>) -> Seq<Seq<char>>
    decreases s.len(),
    via split_fields_decreases
{
    match first_space(s) {
        None => seq![s],
        Some(i) => seq![s.take(i)] + split_fields(s.skip(i + 1)),
    }
}

#[via_fn]
proof fn split_fields_decreases(s: Seq<char>) {
    lemma_first_space_bounds(s);
}

/// The first space, where there is one, lies inside the string.
proof fn lemma_first_space_bounds(s: Seq<char>)
    ensures
        first_space(s) is Some ==> 0 <= first_space(s)->0 < s.len(),
    decreases s.len(),
{
    if s.len() > 0 && s[0] != ' ' {
        lemma_first_space_bounds(s.drop_first());
    }
}

/// A space at `k` after none before it is the first one.
proof fn lemma_first_space_at(s: Seq<char>, k: int)
    requires
        0 <= k < s.len(),
        s[k] == ' ',
        forall|j: int| 0 <= j < k ==> s[j] != ' ',
    ensures
        first_space(s) == Some(k),
    decreases s.len(),
{
    if k > 0 {
        lemma_first_space_at(s.drop_first(), k - 1);
    }
}

/// No space anywhere means no first space.
proof fn lemma_first_space_none(s: Seq<char>)
    requires
        forall|j: int| 0 <= j < s.len() ==> s[j] != ' ',
    ensures
        first_space(s) is None,
    decreases s.len(),
{
    if s.len() > 0 {
        lemma_first_space_none(s.drop_first());
    }
}

/// A longer digit prefix never denotes a smaller number.
proof fn lemma_digits_monotonic(s: Seq<char>, i: int)
    requires
        0 <= i <= s.len(),
    ensures
        digits_val(s.take(i)) <= digits_val(s),
    decreases s.len() - i,
{
    if i < s.len() {
        assert(s.take(i + 1).drop_last() =~= s.take(i));
        assert(digits_val(s.take(i + 1)) == digits_val(s.take(i)) * 10 + (s.take(i + 1).last()
            as u32 - '0' as u32) as nat);
        lemma_digits_monotonic(s, i + 1);
        assert(s.take(s.len() as int) =~= s);
    } else {
        assert(s.take(s.len() as int) =~= s);
    }
}

/// Reads a string as `usize::from_str` does: an optional plus sign, then
/// digits, rejecting overflow.
#[verifier::loop_isolation(false)]
fn parse_usize(s: &str) -> (r: Option<usize>)
    ensures
        r is Some <==> is_usize_str(s@),
        r is Some ==> r->0 == digits_val(digit_part(s@)),
{
    let n = s.unicode_len();
    let mut start: usize = 0;
    if n > 0 && s.get_char(0) == '+' {
        start = 1;
    }
    proof {
        if start == 1 {
            assert(digit_part(s@) =~= s@.drop_first());
        } else {
            assert(digit_part(s@) =~= s@);
        }
    }
    if n == start {
        return None;
    }
    let ghost d = digit_part(s@);
    let mut val: u128 = 0;
    let mut i: usize = start;
    while i < n
        invariant
            start <= i <= n,
            val == digits_val(d.take(i - start)),
            val <= usize::MAX,
            forall|j: int| 0 <= j < i - start ==> is_digit(#[trigger] d[j]),
        decreases n - i,
    {
        let c = s.get_char(i);
        if !('0' <= c && c <= '9') {
            proof {
                assert(d[i - start] == c);
            }
            return None;
        }
        let digit: u128 = (c as u32 as u128) - 48;
        let next = val * 10 + digit;
        proof {
            assert(d.take(i + 1 - start).drop_last() =~= d.take(i - start));
            assert(d.take(i + 1 - start).last() == d[i - start]);
            assert(d[i - start] == s@[i as int]);
        }
        if next > usize::MAX as u128 {
            proof {
                assert(digits_val(d.take(i + 1 - start)) > usize::MAX);
                lemma_digits_monotonic(d, i + 1 - start);
            }
            return None;
        }
        val = next;
        i = i + 1;
    }
    proof {
        assert(d.take(n - start) =~= d);
    }
    Some(val as usize)
}

/// Compares a field with a lower-case keyword, lowering ASCII capitals.
#[verifier::loop_isolation(false)]
fn keyword_lower_eq(s: &str, kw: &str) -> (r: bool)
    ensures
        r == lower_eq(s@, kw@),
{
    let n = s.unicode_len();
    if n != kw.unicode_len() {
        return false;
    }
    let mut i: usize = 0;
    while i < n
        invariant
            i <= n,
            forall|j: int| 0 <= j < i ==> lower_char_eq(#[trigger] s@[j], kw@[j]),
        decreases n - i,
    {
        let a = s.get_char(i);
        let b = kw.get_char(i);
        let ok = a == b || ('A' <= a && a <= 'Z' && (a as u32) + 32 == (b as u32));
        if !ok {
            proof {
                assert(!lower_char_eq(s@[i as int], kw@[i as int]));
            }
            return false;
        }
        i = i + 1;
    }
    true
}

/// Whether two string slices hold the same characters.
#[verifier::loop_isolation(false)]
fn str_eq(a: &str, b: &str) -> (r: bool)
    ensures
        r == (a@ == b@),
{
    let n = a.unicode_len();
    if n != b.unicode_len() {
        return false;
    }
    let mut i: usize = 0;
    while i < n
        invariant
            i <= n,
            forall|j: int| 0 <= j < i ==> a@[j] == b@[j],
        decreases n - i,
    {
        if a.get_char(i) != b.get_char(i) {
            return false;
        }
        i = i + 1;
    }
    proof {
        assert(a@ =~= b@);
    }
    true
}

/// Splits a line on single spaces, keeping empty pieces.
#[verifier::loop_isolation(false)]
fn split_line(text: &str) -> (r: Vec<String>)
    ensures
        r@.map_values(|f: String| f@) == split_fields(text@),
{
    let n = text.unicode_len();
    let mut r: Vec<String> = Vec::new();
    let mut start: usize = 0;
    let mut i: usize = 0;
    proof {
        assert(text@.skip(0) =~= text@);
        assert(r@.map_values(|f: String| f@) =~= Seq::<Seq<char>>::empty());
    }
    while i < n
        invariant
            start <= i <= n,
            forall|j: int| start <= j < i ==> text@[j] != ' ',
            split_fields(text@) =~= r@.map_values(|f: String| f@) + split_fields(
                text@.skip(start as int),
            ),
        decreases n - i,
    {
        let c = text.get_char(i);
        if c == ' ' {
            let piece = text.substring_char(start, i).to_owned();
            let ghost r_pre = r@;
            r.push(piece);
            proof {
                let rest = text@.skip(start as int);
                assert(rest[i - start] == ' ');
                lemma_first_space_at(rest, i - start);
                assert(rest.take(i - start) =~= text@.subrange(start as int, i as int));
                assert(rest.skip(i - start + 1) =~= text@.skip(i + 1));
                assert(r@.map_values(|f: String| f@) =~= r_pre.map_values(|f: String| f@).push(
                    piece@,
                ));
                assert(r_pre.map_values(|f: String| f@).push(piece@) + split_fields(
                    text@.skip(i + 1),
                ) =~= r_pre.map_values(|f: String| f@) + (seq![piece@] + split_fields(
                    text@.skip(i + 1),
                )));
            }
            start = i + 1;
        }
        i = i + 1;
    }
    let piece = text.substring_char(start, n).to_owned();
    let ghost r_pre = r@;
    r.push(piece);
    proof {
        let rest = text@.skip(start as int);
        lemma_first_space_none(rest);
        assert(rest =~= text@.subrange(start as int, n as int));
        assert(r@.map_values(|f: String| f@) =~= r_pre.map_values(|f: String| f@).push(piece@));
        assert(r_pre.map_values(|f: String| f@).push(piece@) =~= r_pre.map_values(
            |f: String| f@,
        ) + seq![piece@]);
    }
    r
}

/// The view of a parse result.
pub open spec fn result_view(r: Result<Input, Error>) -> Result<InputV, Error> {
    match r {
        Ok(i) => Ok(i@),
        Err(e) => Err(e),
    }
}

/// The mathematical image of a [`Parser`].
#[verifier::ext_equal]
pub struct ParserV {
    pub state: ReplConfigV,
    pub fields: Seq<Seq<char>>,
    pub pointer: usize,
    pub buffer: Option<TokenV>,
}

impl ParserV {
    /// A fresh parser: nothing stored, nothing buffered.
    pub open spec fn empty() -> ParserV {
        ParserV { state: ReplConfigV::empty(), fields: Seq::empty(), pointer: 0, buffer: None }
    }

    /// Taking the next field: it leaves the field list, the position counter
    /// advances, and the field reads as a token; an exhausted list reads as
    /// `EOF` and changes nothing.
    pub open spec fn spec_read(self) -> (TokenV, ParserV) {
        if self.fields.len() == 0 {
            (TokenV::EOF, self)
        } else {
            (
                token_of(self.fields[0]),
                ParserV {
                    fields: self.fields.drop_first(),
                    pointer: (self.pointer + 1) as usize,
                    ..self
                },
            )
        }
    }

    /// Looking at the next token without consuming it: reads into the
    /// one-token buffer if it is empty.
    pub open spec fn spec_peek(self) -> (TokenV, ParserV) {
        match self.buffer {
            Some(t) => (t, self),
            None => {
                let (t, p2) = self.spec_read();
                (t, ParserV { buffer: Some(t), ..p2 })
            },
        }
    }

    /// Consuming the next token: from the buffer if filled, else by reading.
    pub open spec fn spec_next(self) -> (TokenV, ParserV) {
        match self.buffer {
            Some(t) => (t, ParserV { buffer: None, ..self }),
            None => self.spec_read(),
        }
    }

    /// The next token as a number, or `InvalidParam` naming its position.
    pub open spec fn spec_parse_number(self) -> (Result<usize, Error>, ParserV) {
        let (t, p2) = self.spec_next();
        match t {
            TokenV::Int(v) => (Ok(v), p2),
            _ => (Err(Error::InvalidParam(p2.pointer)), p2),
        }
    }

    /// The next token as a plain word, or `InvalidParam`.
    pub open spec fn spec_parse_string(self) -> (Result<Seq<char>, Error>, ParserV) {
        let (t, p2) = self.spec_next();
        match t {
            TokenV::Str(v) => (Ok(v), p2),
            _ => (Err(Error::InvalidParam(p2.pointer)), p2),
        }
    }

    /// The next token as a boolean, or `InvalidParam`.
    pub open spec fn spec_parse_boolean(self) -> (Result<bool, Error>, ParserV) {
        let (t, p2) = self.spec_next();
        match t {
            TokenV::Boolean(v) => (Ok(v), p2),
            _ => (Err(Error::InvalidParam(p2.pointer)), p2),
        }
    }

    /// A `config <key> <value>` command: the key picks the option, the value
    /// must fit it; `autostop` lives in the parser's own state.
    pub open spec fn spec_parse_config(self) -> (Result<InputV, Error>, ParserV) {
        let (rs, p1) = self.spec_parse_string();
        match rs {
            Err(e) => (Err(e), p1),
            Ok(key) => {
                if key == "threads"@ || key == "thread"@ || key == "t"@ {
                    let (rn, p2) = p1.spec_parse_number();
                    match rn {
                        Ok(v) => (Ok(InputV::Threads(v)), p2),
                        Err(e) => (Err(e), p2),
                    }
                } else if key == "tries"@ || key == "attemps"@ || key == "a"@ {
                    let (rn, p2) = p1.spec_parse_number();
                    match rn {
                        Ok(v) => (Ok(InputV::Attempts(v)), p2),
                        Err(e) => (Err(e), p2),
                    }
                } else if key == "tcp-timeout"@ || key == "timeout"@ || key == "tto"@ {
                    let (rn, p2) = p1.spec_parse_number();
                    match rn {
                        Ok(v) => (Ok(InputV::TcpTimeout(v)), p2),
                        Err(e) => (Err(e), p2),
                    }
                } else if key == "udp-timeout"@ || key == "uto"@ {
                    let (rn, p2) = p1.spec_parse_number();
                    match rn {
                        Ok(v) => (Ok(InputV::UdpTimeout(v)), p2),
                        Err(e) => (Err(e), p2),
                    }
                } else if key == "autostop"@ {
                    let (rb, p2) = p1.spec_parse_boolean();
                    match rb {
                        Ok(b) => (
                            Ok(InputV::NOP),
                            ParserV {
                                state: ReplConfigV { autostop: b, ..p2.state },
                                ..p2
                            },
                        ),
                        Err(e) => (Err(e), p2),
                    }
                } else {
                    (Err(Error::InvalidParam(p1.pointer)), p1)
                }
            },
        }
    }

    /// A `scan` command: an optional host (else the stored one), an optional
    /// protocol token (TCP by default), a first port, and an optional last
    /// port that defaults to the first.
    pub open spec fn spec_parse_scan(self) -> (Result<InputV, Error>, ParserV) {
        let (t0, pa) = self.spec_peek();
        if t0 is Str {
            let (t1, pb) = pa.spec_next();
            pb.spec_parse_scan_proto(t0->Str_0)
        } else {
            match pa.state.host {
                Some(h) => pa.spec_parse_scan_proto(h),
                None => (Err(Error::HostNotSpecified), pa),
            }
        }
    }

    /// After the host: the optional protocol token.
    pub open spec fn spec_parse_scan_proto(self, host: Seq<char>) -> (Result<InputV, Error>, ParserV) {
        let (t1, pa) = self.spec_peek();
        if t1 == TokenV::Tcp {
            let (t2, pb) = pa.spec_next();
            pb.spec_parse_scan_ports(host, true)
        } else if t1 == TokenV::Udp {
            let (t2, pb) = pa.spec_next();
            pb.spec_parse_scan_ports(host, false)
        } else {
            pa.spec_parse_scan_ports(host, true)
        }
    }

    /// After host and protocol: the ports, checked against the 16-bit range.
    pub open spec fn spec_parse_scan_ports(self, host: Seq<char>, is_tcp: bool) -> (
        Result<InputV, Error>,
        ParserV,
    ) {
        let (rf, pa) = self.spec_parse_number();
        match rf {
            Err(e) => (Err(e), pa),
            Ok(from) => {
                let (t2, pb) = pa.spec_peek();
                let to = if t2 is Int {
                    t2->Int_0
                } else {
                    from
                };
                if from > 0xffff {
                    (Err(Error::InvalidPort(from)), pb)
                } else if to > 0xffff {
                    (Err(Error::InvalidPort(to)), pb)
                } else if is_tcp {
                    (Ok(InputV::TcpRange(host, from as u16, to as u16)), pb)
                } else {
                    (Ok(InputV::UdpRange(host, from as u16, to as u16)), pb)
                }
            },
        }
    }

    /// A whole field list: the first field names the command.
    pub open spec fn spec_parse_fields(self) -> (Result<InputV, Error>, ParserV) {
        if self.fields.len() == 0 {
            (Err(Error::Empty), self)
        } else {
            let name = self.fields[0];
            let p1 = ParserV { fields: self.fields.drop_first(), ..self };
            if name == "host"@ || name == "h"@ {
                let (rs, p2) = p1.spec_parse_string();
                match rs {
                    Ok(h) => (
                        Ok(InputV::NOP),
                        ParserV { state: ReplConfigV { host: Some(h), ..p2.state }, ..p2 },
                    ),
                    Err(e) => (Err(e), p2),
                }
            } else if name == "ping"@ {
                (Ok(InputV::Ping), p1)
            } else if name == "pause"@ || name == "p"@ {
                (Ok(InputV::Stop), p1)
            } else if name == "quit"@ || name == "q"@ || name == "exit"@ {
                (Ok(InputV::End), p1)
            } else if name == "cancel"@ || name == "c"@ {
                (Ok(InputV::Cancel), p1)
            } else if name == "resume"@ || name == "r"@ {
                (Ok(InputV::Cont), p1)
            } else if name == "config"@ || name == "conf"@ || name == "cfg"@ {
                p1.spec_parse_config()
            } else if name == "scan"@ || name == "s"@ {
                p1.spec_parse_scan()
            } else {
                (Err(Error::UnknownCommand), p1)
            }
        }
    }

    /// A whole line against a carried state: split on spaces, parse, hand the
    /// state back, and reset position, buffer and own state for the next
    /// line.
    pub open spec fn spec_parse(self, st: ReplConfigV, text: Seq<char>) -> (
        (Result<InputV, Error>, ReplConfigV),
        ParserV,
    ) {
        let p1 = ParserV { state: st, fields: split_fields(text), ..self };
        let (r, p2) = p1.spec_parse_fields();
        (
            (r, p2.state),
            ParserV { state: ReplConfigV::empty(), fields: p2.fields, pointer: 0, buffer: None },
        )
    }
}

/// The textual command parser: a field list, a cursor for error positions,
/// and a one-token lookahead buffer.
pub struct Parser {
    state: ReplConfig,
    fields: Vec<String>,
    pointer: usize,
    buffer: Option<Token>,
}

impl View for Parser {
    type V = ParserV;

    closed spec fn view(&self) -> ParserV {
        ParserV {
            state: self.state@,
            fields: self.fields@.map_values(|f: String| f@),
            pointer: self.pointer,
            buffer: match self.buffer {
                Some(ref t) => Some(t@),
                None => None,
            },
        }
    }
}

impl Default for Parser {
    fn default() -> (r: Self)
        ensures
            r@ == ParserV::empty(),
    {
        let r = Parser {
            state: ReplConfig { host: None, autostop: false },
            fields: Vec::new(),
            pointer: 0,
            buffer: None,
        };
        proof {
            assert(r@ =~= ParserV::empty());
        }
        r
    }
}

fn clone_token(t: &Token) -> (r: Token)
    ensures
        r@ == t@,
{
    match t {
        Token::Int(v) => Token::Int(*v),
        Token::Str(s) => Token::Str(s.clone()),
        Token::Boolean(b) => Token::Boolean(*b),
        Token::Tcp => Token::Tcp,
        Token::Udp => Token::Udp,
        Token::EOF => Token::EOF,
    }
}

impl Parser {
    fn read(&mut self) -> (t: Token)
        requires
            old(self)@.pointer + old(self)@.fields.len() <= usize::MAX,
        ensures
            t@ == old(self)@.spec_read().0,
            final(self)@ == old(self)@.spec_read().1,
            final(self)@.pointer + final(self)@.fields.len() <= usize::MAX,
            final(self)@.state == old(self)@.state,
            final(self)@.buffer == old(self)@.buffer,
    {
        if self.fields.len() == 0 {
            return Token::EOF;
        }
        let field = self.fields.remove(0);
        self.pointer = self.pointer + 1;
        proof {
            assert(self@.fields =~= old(self)@.fields.drop_first());
            assert(self@ =~= old(self)@.spec_read().1);
            assert(field@ == old(self)@.fields[0]);
        }
        match parse_usize(field.as_str()) {
            Some(v) => Token::Int(v),
            None => {
                if keyword_lower_eq(field.as_str(), "true") {
                    Token::Boolean(true)
                } else if keyword_lower_eq(field.as_str(), "false") {
                    Token::Boolean(false)
                } else if keyword_lower_eq(field.as_str(), "tcp") {
                    Token::Tcp
                } else if keyword_lower_eq(field.as_str(), "udp") {
                    Token::Udp
                } else {
                    Token::Str(field)
                }
            },
        }
    }

    fn peek(&mut self) -> (t: Token)
        requires
            old(self)@.pointer + old(self)@.fields.len() <= usize::MAX,
        ensures
            t@ == old(self)@.spec_peek().0,
            final(self)@ == old(self)@.spec_peek().1,
            final(self)@.pointer + final(self)@.fields.len() <= usize::MAX,
            final(self)@.state == old(self)@.state,
    {
        match &self.buffer {
            Some(buf) => clone_token(buf),
            None => {
                let token = self.read();
                self.buffer = Some(clone_token(&token));
                proof {
                    assert(self@ =~= old(self)@.spec_peek().1);
                }
                token
            },
        }
    }

    fn next(&mut self) -> (t: Token)
        requires
            old(self)@.pointer + old(self)@.fields.len() <= usize::MAX,
        ensures
            t@ == old(self)@.spec_next().0,
            final(self)@ == old(self)@.spec_next().1,
            final(self)@.pointer + final(self)@.fields.len() <= usize::MAX,
            final(self)@.state == old(self)@.state,
    {
        match &self.buffer {
            Some(buf) => {
                let t = clone_token(buf);
                self.buffer = None;
                proof {
                    assert(self@ =~= old(self)@.spec_next().1);
                }
                t
            },
            None => self.read(),
        }
    }

    fn parse_number(&mut self) -> (r: Result<usize, Error>)
        requires
            old(self)@.pointer + old(self)@.fields.len() <= usize::MAX,
        ensures
            r == old(self)@.spec_parse_number().0,
            final(self)@ == old(self)@.spec_parse_number().1,
            final(self)@.pointer + final(self)@.fields.len() <= usize::MAX,
            final(self)@.state == old(self)@.state,
    {
        let token = self.next();
        match token {
            Token::Int(value) => Ok(value),
            _ => Err(Error::InvalidParam(self.pointer)),
        }
    }

    fn parse_string(&mut self) -> (r: Result<String, Error>)
        requires
            old(self)@.pointer + old(self)@.fields.len() <= usize::MAX,
        ensures
            ({
                let (sr, sp) = old(self)@.spec_parse_string();
                &&& (match r {
                    Ok(v) => sr is Ok && sr->Ok_0 == v@,
                    Err(e) => sr == Err::<Seq<char>, Error>(e),
                })
                &&& final(self)@ == sp
            }),
            final(self)@.pointer + final(self)@.fields.len() <= usize::MAX,
            final(self)@.state == old(self)@.state,
    {
        let token = self.next();
        match token {
            Token::Str(value) => Ok(value),
            _ => Err(Error::InvalidParam(self.pointer)),
        }
    }

    fn parse_boolean(&mut self) -> (r: Result<bool, Error>)
        requires
            old(self)@.pointer + old(self)@.fields.len() <= usize::MAX,
        ensures
            r == old(self)@.spec_parse_boolean().0,
            final(self)@ == old(self)@.spec_parse_boolean().1,
            final(self)@.pointer + final(self)@.fields.len() <= usize::MAX,
            final(self)@.state == old(self)@.state,
    {
        let token = self.next();
        match token {
            Token::Boolean(value) => Ok(value),
            _ => Err(Error::InvalidParam(self.pointer)),
        }
    }

    fn parse_config(&mut self) -> (r: Result<Input, Error>)
        requires
            old(self)@.pointer + old(self)@.fields.len() <= usize::MAX,
        ensures
            result_view(r) == old(self)@.spec_parse_config().0,
            final(self)@ == old(self)@.spec_parse_config().1,
            final(self)@.pointer + final(self)@.fields.len() <= usize::MAX,
    {
        let key = match self.parse_string() {
            Ok(k) => k,
            Err(e) => {
                return Err(e);
            },
        };
        let k = key.as_str();
        if str_eq(k, "threads") || str_eq(k, "thread") || str_eq(k, "t") {
            match self.parse_number() {
                Ok(v) => Ok(Input::Threads(v)),
                Err(e) => Err(e),
            }
        } else if str_eq(k, "tries") || str_eq(k, "attemps") || str_eq(k, "a") {
            match self.parse_number() {
                Ok(v) => Ok(Input::Attempts(v)),
                Err(e) => Err(e),
            }
        } else if str_eq(k, "tcp-timeout") || str_eq(k, "timeout") || str_eq(k, "tto") {
            match self.parse_number() {
                Ok(v) => Ok(Input::TcpTimeout(v)),
                Err(e) => Err(e),
            }
        } else if str_eq(k, "udp-timeout") || str_eq(k, "uto") {
            match self.parse_number() {
                Ok(v) => Ok(Input::UdpTimeout(v)),
                Err(e) => Err(e),
            }
        } else if str_eq(k, "autostop") {
            match self.parse_boolean() {
                Ok(b) => {
                    self.state.autostop = b;
                    Ok(Input::NOP)
                },
                Err(e) => Err(e),
            }
        } else {
            Err(Error::InvalidParam(self.pointer))
        }
    }

    fn parse_scan(&mut self) -> (r: Result<Input, Error>)
        requires
            old(self)@.pointer + old(self)@.fields.len() <= usize::MAX,
        ensures
            result_view(r) == old(self)@.spec_parse_scan().0,
            final(self)@ == old(self)@.spec_parse_scan().1,
            final(self)@.pointer + final(self)@.fields.len() <= usize::MAX,
    {
        let t0 = self.peek();
        let host = match t0 {
            Token::Str(name) => {
                let _consumed = self.next();
                name
            },
            _ => {
                match &self.state.host {
                    Some(h) => h.clone(),
                    None => {
                        return Err(Error::HostNotSpecified);
                    },
                }
            },
        };
        let t1 = self.peek();
        let is_tcp = match t1 {
            Token::Tcp => {
                let _consumed = self.next();
                true
            },
            Token::Udp => {
                let _consumed = self.next();
                false
            },
            _ => true,
        };
        let from = match self.parse_number() {
            Ok(v) => v,
            Err(e) => {
                return Err(e);
            },
        };
        let t2 = self.peek();
        let to = match t2 {
            Token::Int(num) => num,
            _ => from,
        };
        if from > 0xffff {
            return Err(Error::InvalidPort(from));
        }
        if to > 0xffff {
            return Err(Error::InvalidPort(to));
        }
        Ok(
            if is_tcp {
                Input::TcpRange(host, from as u16, to as u16)
            } else {
                Input::UdpRange(host, from as u16, to as u16)
            },
        )
    }

    /// Parses the already-split fields; the first names the command.
    pub fn parse_fields(&mut self) -> (r: Result<Input, Error>)
        requires
            old(self)@.pointer + old(self)@.fields.len() <= usize::MAX,
        ensures
            result_view(r) == old(self)@.spec_parse_fields().0,
            final(self)@ == old(self)@.spec_parse_fields().1,
            final(self)@.pointer + final(self)@.fields.len() <= usize::MAX,
    {
        if self.fields.len() == 0 {
            return Err(Error::Empty);
        }
        let name = self.fields.remove(0);
        proof {
            assert(self@.fields =~= old(self)@.fields.drop_first());
            assert(self@ =~= (ParserV { fields: old(self)@.fields.drop_first(), ..old(self)@ }));
            assert(name@ == old(self)@.fields[0]);
        }
        let nm = name.as_str();
        if str_eq(nm, "host") || str_eq(nm, "h") {
            match self.parse_string() {
                Ok(h) => {
                    self.state.host = Some(h);
                    Ok(Input::NOP)
                },
                Err(e) => Err(e),
            }
        } else if str_eq(nm, "ping") {
            Ok(Input::Ping)
        } else if str_eq(nm, "pause") || str_eq(nm, "p") {
            Ok(Input::Stop)
        } else if str_eq(nm, "quit") || str_eq(nm, "q") || str_eq(nm, "exit") {
            Ok(Input::End)
        } else if str_eq(nm, "cancel") || str_eq(nm, "c") {
            Ok(Input::Cancel)
        } else if str_eq(nm, "resume") || str_eq(nm, "r") {
            Ok(Input::Cont)
        } else if str_eq(nm, "config") || str_eq(nm, "conf") || str_eq(nm, "cfg") {
            self.parse_config()
        } else if str_eq(nm, "scan") || str_eq(nm, "s") {
            self.parse_scan()
        } else {
            Err(Error::UnknownCommand)
        }
    }

    /// Parses one line against the carried state: the line is split on
    /// spaces, the result and the state are handed back, and the parser is
    /// left ready for the next line.
    pub fn parse(&mut self, state: ReplConfig, text: String) -> (r: (
        Result<Input, Error>,
        ReplConfig,
    ))
        requires
            old(self)@.pointer + split_fields(text@).len() <= usize::MAX,
        ensures
            ({
                let ((sr, sst), sp) = old(self)@.spec_parse(state@, text@);
                &&& result_view(r.0) == sr
                &&& r.1@ == sst
                &&& final(self)@ == sp
            }),
    {
        self.state = state;
        self.fields = split_line(text.as_str());
        proof {
            assert(self@ =~= (ParserV {
                state: state@,
                fields: split_fields(text@),
                ..old(self)@
            }));
        }
        let rsl = self.parse_fields();
        self.pointer = 0;
        self.buffer = None;
        let out_state = ReplConfig {
            host: match &self.state.host {
                Some(h) => Some(h.clone()),
                None => None,
            },
            autostop: self.state.autostop,
        };
        self.state = ReplConfig { host: None, autostop: false };
        proof {
            assert(out_state@ =~= old(self)@.spec_parse(state@, text@).0.1);
            assert(self@ =~= old(self)@.spec_parse(state@, text@).1);
        }
        (rsl, out_state)
    }
}

} // verus!
