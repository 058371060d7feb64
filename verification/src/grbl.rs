//! The GRBL wire protocol: the device's status frames and acknowledgments,
//! and the command text sent towards it.
//!
//! A status frame reads `<STATE,MPos:X,Y,Z,...>` where STATE is one of the
//! four machine states and the first three comma-separated positions after
//! the state are signed decimal coordinates; anything after them is ignored.
//! The bare line `ok` acknowledges a command. Every other line is a parse
//! error.

use vstd::prelude::*;
use crate::text::{
    all_digits,
    range_matches,
    check_all_digits,
    chars_of,
    digits_val,
    digits_value,
    find_char,
    find_in,
    lemma_find_in,
    lemma_find_in_offset,
    str_eq,
};

verus! {

/// A command addressed to the device. The only one is the status request.
#[derive(Debug, Clone, Copy, PartialEq, Eq, Structural)]
pub enum Command {
    Status,
}

impl Command {
    /// The newline-terminated text that goes over the wire for the command.
    pub fn wire_text(&self) -> (r: String)
        ensures
            r@ == "?\n"@,
    {
        String::from_str("?\n")
    }
}

/// The device's reported movement state.
#[derive(Debug, Clone, Copy, PartialEq, Eq, Structural)]
pub enum MachineState {
    Run,
    Idle,
    Home,
    Alarm,
}

/// A signed fixed-point coordinate: the digits around the decimal point read
/// as one integer, with the count of fractional digits kept as the scale.
/// The value stood for is mantissa divided by ten to the scale, negated when
/// the negative flag is set.
#[derive(Debug, Clone, Copy, PartialEq, Eq, Structural)]
pub struct Decimal {
    pub negative: bool,
    pub mantissa: u64,
    pub scale: u32,
}

/// A three-axis machine position.
#[derive(Debug, Clone, Copy, PartialEq, Eq, Structural)]
pub struct MachinePosition {
    pub x: Decimal,
    pub y: Decimal,
    pub z: Decimal,
}

/// One parsed unit of device output.
#[derive(Debug, Clone, Copy, PartialEq, Eq, Structural)]
pub enum Response {
    Ack,
    Status(MachineState, MachinePosition),
}

/// Why a device line failed to parse.
#[derive(Debug, Clone, Copy, PartialEq, Eq, Structural)]
pub enum ResponseParseError {
    BadMachineState,
    BadStatusFields,
    BadPosition,
    UnknownResponse,
}

/// The machine state named by a token, if any.
pub open spec fn machine_state_of(s: Seq<char>) -> Option<MachineState> {
    if s == "Idle"@ {
        Some(MachineState::Idle)
    } else if s == "Run"@ {
        Some(MachineState::Run)
    } else if s == "Home"@ {
        Some(MachineState::Home)
    } else if s == "Alarm"@ {
        Some(MachineState::Alarm)
    } else {
        None
    }
}

impl MachineState {
    /// Parses a machine-state token.
    pub fn from_str(input: &str) -> (r: Result<MachineState, ResponseParseError>)
        ensures
            machine_state_of(input@) is Some ==> r == Ok::<MachineState, ResponseParseError>(
                machine_state_of(input@).unwrap(),
            ),
            machine_state_of(input@) is None ==> r == Err::<MachineState, ResponseParseError>(
                ResponseParseError::BadMachineState,
            ),
    {
        let v = chars_of(input);
        let n = v.len();
        proof {
            assert(v@.subrange(0, n as int) =~= input@);
        }
        match machine_state_of_range(&v, 0, n) {
            Some(state) => Ok(state),
            None => Err(ResponseParseError::BadMachineState),
        }
    }
}

/// Reads a machine-state token out of a slice of the character vector.
fn machine_state_of_range(v: &Vec<char>, lo: usize, hi: usize) -> (r: Option<MachineState>)
    requires
        lo <= hi <= v@.len(),
    ensures
        r == machine_state_of(v@.subrange(lo as int, hi as int)),
{
    if range_matches(v, lo, hi, "Idle") {
        Some(MachineState::Idle)
    } else if range_matches(v, lo, hi, "Run") {
        Some(MachineState::Run)
    } else if range_matches(v, lo, hi, "Home") {
        Some(MachineState::Home)
    } else if range_matches(v, lo, hi, "Alarm") {
        Some(MachineState::Alarm)
    } else {
        None
    }
}

/// The decimal read from sign-stripped digits: the integer digits, the
/// fractional digits, and the sign that preceded them. At least one digit
/// must be present, at most twelve in all, and nothing but digits.
pub open spec fn decimal_from_parts(neg: bool, ip: Seq<char>, fp: Seq<char>) -> Option<Decimal> {
    if ip.len() + fp.len() >= 1 && ip.len() + fp.len() <= 12 && all_digits(ip) && all_digits(fp) {
        Some(
            Decimal {
                negative: neg,
                mantissa: digits_val(ip + fp) as u64,
                scale: fp.len() as u32,
            },
        )
    } else {
        None
    }
}

/// The decimal read from a token with its sign already stripped.
pub open spec fn decimal_of_body(neg: bool, body: Seq<char>) -> Option<Decimal> {
    let dot = find_in(body, '.', 0, body.len() as int);
    if dot == body.len() {
        decimal_from_parts(neg, body, Seq::empty())
    } else {
        decimal_from_parts(neg, body.subrange(0, dot), body.subrange(dot + 1, body.len() as int))
    }
}

/// The decimal a coordinate token stands for: an optional sign, then digits
/// with at most one decimal point.
pub open spec fn decimal_of(s: Seq<char>) -> Option<Decimal> {
    if s.len() == 0 {
        None
    } else if s[0] == '-' {
        decimal_of_body(true, s.subrange(1, s.len() as int))
    } else if s[0] == '+' {
        decimal_of_body(false, s.subrange(1, s.len() as int))
    } else {
        decimal_of_body(false, s)
    }
}

/// Parses the decimal held in a slice of the character vector.
pub fn decimal_of_range(v: &Vec<char>, lo: usize, hi: usize) -> (r: Option<Decimal>)
    requires
        lo <= hi <= v@.len(),
    ensures
        r == decimal_of(v@.subrange(lo as int, hi as int)),
{
    let ghost s = v@.subrange(lo as int, hi as int);
    if lo == hi {
        return None;
    }
    let first = v[lo];
    let neg = first == '-';
    let start = if first == '-' || first == '+' {
        lo + 1
    } else {
        lo
    };
    let ghost body = v@.subrange(start as int, hi as int);
    proof {
        assert(s[0] == v@[lo as int]);
        if first == '-' || first == '+' {
            assert(s.subrange(1, s.len() as int) =~= body);
        } else {
            assert(s =~= body);
        }
    }
    let dotv = find_char(v, '.', start, hi);
    proof {
        lemma_find_in(v@, '.', start as int, hi as int);
        lemma_find_in_offset(v@, '.', start as int, hi as int, start as int, hi as int);
    }
    let ghost dot = find_in(body, '.', 0, body.len() as int);
    proof {
        assert(dot == dotv - start);
    }
    // Collect the digits on both sides of the point into one vector.
    let mut digs: Vec<char> = Vec::new();
    let mut i: usize = start;
    while i < dotv
        invariant
            start <= i <= dotv <= hi <= v@.len(),
            digs@ == v@.subrange(start as int, i as int),
        decreases dotv - i,
    {
        digs.push(v[i]);
        proof {
            assert(digs@ =~= v@.subrange(start as int, i + 1 as int));
        }
        i += 1;
    }
    let ghost ip = v@.subrange(start as int, dotv as int);
    let ghost fp = if dot == body.len() {
        Seq::<char>::empty()
    } else {
        body.subrange(dot + 1, body.len() as int)
    };
    if dotv < hi {
        let mut j: usize = dotv + 1;
        while j < hi
            invariant
                dotv + 1 <= j <= hi <= v@.len(),
                start <= dotv,
                digs@ == v@.subrange(start as int, dotv as int) + v@.subrange(
                    dotv + 1 as int,
                    j as int,
                ),
            decreases hi - j,
        {
            digs.push(v[j]);
            proof {
                assert(digs@ =~= v@.subrange(start as int, dotv as int) + v@.subrange(
                    dotv + 1 as int,
                    j + 1 as int,
                ));
            }
            j += 1;
        }
        proof {
            assert(fp =~= v@.subrange(dotv + 1 as int, hi as int));
            assert(digs@ =~= ip + fp);
        }
    } else {
        proof {
            assert(digs@ =~= v@.subrange(start as int, dotv as int));
            assert(digs@ =~= ip + fp);
        }
    }
    proof {
        assert(ip =~= body.subrange(0, dot));
        if dot == body.len() {
            assert(body =~= ip);
        }
    }
    let count = digs.len();
    if count < 1 || count > 12 {
        proof {
            assert((ip + fp).len() == ip.len() + fp.len());
        }
        return None;
    }
    if !check_all_digits(&digs, 0, count) {
        proof {
            assert(digs@.subrange(0, count as int) =~= digs@);
            decimal_of_parts_digits(ip, fp);
        }
        return None;
    }
    proof {
        assert(digs@.subrange(0, count as int) =~= digs@);
        decimal_of_parts_digits(ip, fp);
    }
    let mantissa = digits_value(&digs, 0, count);
    let scale: u32 = if dotv < hi {
        let width = hi - dotv - 1;
        proof {
            assert(fp.len() == hi - dotv - 1);
        }
        if width > 12 {
            // Unreachable: the digit count was already bounded above.
            proof {
                assert((ip + fp).len() == ip.len() + fp.len());
                assert(false);
            }
            0
        } else {
            width as u32
        }
    } else {
        0
    };
    proof {
        assert(digs@.subrange(0, count as int) =~= digs@);
    }
    Some(Decimal { negative: neg, mantissa, scale })
}

/// What a device line parses to. The line `ok` is the acknowledgment. A
/// line opening with `<` is a status frame: the state token runs to the
/// first comma; at least three comma-separated fields must follow, the first
/// carrying the `MPos:` header; the three coordinates must be decimals;
/// whatever follows them is ignored. Every other line is unrecognized.
pub open spec fn response_of(s: Seq<char>) -> Result<Response, ResponseParseError> {
    if s == "ok"@ {
        Ok(Response::Ack)
    } else if s.len() > 0 && s[0] == '<' {
        let len = s.len() as int;
        let c0 = find_in(s, ',', 1, len);
        if machine_state_of(s.subrange(1, c0)) is None {
            Err(ResponseParseError::BadMachineState)
        } else {
            let state = machine_state_of(s.subrange(1, c0)).unwrap();
            let c1 = find_in(s, ',', c0 + 1, len);
            let c2 = find_in(s, ',', c1 + 1, len);
            let c3 = find_in(s, ',', c2 + 1, len);
            if c0 >= len || c1 >= len || c2 >= len {
                Err(ResponseParseError::BadStatusFields)
            } else if !(c1 - (c0 + 1) >= 5 && s.subrange(c0 + 1, c0 + 6) == "MPos:"@) {
                Err(ResponseParseError::BadStatusFields)
            } else {
                let x = decimal_of(s.subrange(c0 + 6, c1));
                let y = decimal_of(s.subrange(c1 + 1, c2));
                let z = decimal_of(s.subrange(c2 + 1, c3));
                if x is Some && y is Some && z is Some {
                    Ok(
                        Response::Status(
                            state,
                            MachinePosition {
                                x: x.unwrap(),
                                y: y.unwrap(),
                                z: z.unwrap(),
                            },
                        ),
                    )
                } else {
                    Err(ResponseParseError::BadPosition)
                }
            }
        }
    } else {
        Err(ResponseParseError::UnknownResponse)
    }
}

impl Response {
    /// Parses one line of device output.
    pub fn from_str(input: &str) -> (r: Result<Response, ResponseParseError>)
        ensures
            r == response_of(input@),
    {
        if str_eq(input, "ok") {
            return Ok(Response::Ack);
        }
        let v = chars_of(input);
        let n = v.len();
        if n == 0 || v[0] != '<' {
            return Err(ResponseParseError::UnknownResponse);
        }
        let c0 = find_char(&v, ',', 1, n);
        proof {
            lemma_find_in(v@, ',', 1, n as int);
        }
        let state = match machine_state_of_range(&v, 1, c0) {
            None => {
                return Err(ResponseParseError::BadMachineState);
            },
            Some(state) => state,
        };
        if c0 >= n {
            return Err(ResponseParseError::BadStatusFields);
        }
        let c1 = find_char(&v, ',', c0 + 1, n);
        proof {
            lemma_find_in(v@, ',', c0 + 1 as int, n as int);
        }
        if c1 >= n {
            return Err(ResponseParseError::BadStatusFields);
        }
        let c2 = find_char(&v, ',', c1 + 1, n);
        proof {
            lemma_find_in(v@, ',', c1 + 1 as int, n as int);
        }
        if c2 >= n {
            return Err(ResponseParseError::BadStatusFields);
        }
        let c3 = find_char(&v, ',', c2 + 1, n);
        proof {
            lemma_find_in(v@, ',', c2 + 1 as int, n as int);
        }
        if !(c1 - (c0 + 1) >= 5 && range_matches(&v, c0 + 1, c0 + 6, "MPos:")) {
            return Err(ResponseParseError::BadStatusFields);
        }
        let x = decimal_of_range(&v, c0 + 6, c1);
        let y = decimal_of_range(&v, c1 + 1, c2);
        let z = decimal_of_range(&v, c2 + 1, c3);
        match (x, y, z) {
            (Some(x), Some(y), Some(z)) => Ok(
                Response::Status(state, MachinePosition { x, y, z }),
            ),
            _ => Err(ResponseParseError::BadPosition),
        }
    }
}

/// Digits on both sides of the point are exactly digits of the two parts.
proof fn decimal_of_parts_digits(ip: Seq<char>, fp: Seq<char>)
    ensures
        all_digits(ip + fp) <==> (all_digits(ip) && all_digits(fp)),
{
    if all_digits(ip + fp) {
        assert forall|i: int| 0 <= i < ip.len() implies crate::text::is_digit(#[trigger] ip[i]) by {
            assert((ip + fp)[i] == ip[i]);
        }
        assert forall|i: int| 0 <= i < fp.len() implies crate::text::is_digit(#[trigger] fp[i]) by {
            assert((ip + fp)[ip.len() + i] == fp[i]);
        }
    }
    if all_digits(ip) && all_digits(fp) {
        assert forall|i: int| 0 <= i < (ip + fp).len() implies crate::text::is_digit(
            #[trigger] (ip + fp)[i],
        ) by {
            if i < ip.len() {
                assert((ip + fp)[i] == ip[i]);
            } else {
                assert((ip + fp)[i] == fp[i - ip.len()]);
            }
        }
    }
}

} // verus!
