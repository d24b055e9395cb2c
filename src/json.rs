//! The JSON document type of `rustc_serialize`, the one parse that the
//! decoder relies on, and the inputs on which that parse is safe.
use vstd::prelude::*;
use rustc_serialize::json::{Json, ParserError};

verus! {

#[verifier::external_type_specification]
#[verifier::external_body]
pub struct ExJson(Json);

#[verifier::external_type_specification]
#[verifier::external_body]
pub struct ExParserError(ParserError);

/// Relies on the derived `Clone` of `rustc_serialize::json::Json`: a deep copy
/// of the document.
pub assume_specification[ <Json as Clone>::clone ](j: &Json) -> (r: Json)
    ensures
        r == *j,
;

/// The deepest nesting of arrays and objects that a payload may have. The
/// parser's builder recurses once per level.
pub const MAX_NESTING: usize = 128;

/// The most digits an exponent may have: the parser gathers them in a
/// `usize`, which one more could overflow.
pub const MAX_EXPONENT_DIGITS: usize = 19;

/// Where a scan of JSON text stands after some prefix: the open brackets
/// outside strings and the most seen at once; whether it is inside a string,
/// just after a backslash; whether a comma followed by blanks only was the
/// last thing seen; whether it is in an exponent and how many digits that
/// has; and whether something was seen that the parser cannot take safely.
pub ghost struct Scan {
    pub depth: int,
    pub max: int,
    pub in_string: bool,
    pub escaped: bool,
    pub after_comma: bool,
    pub in_exponent: bool,
    pub exp_digits: int,
    pub unsafe_seen: bool,
}

pub open spec fn is_blank(c: u8) -> bool {
    c == 32 || c == 10 || c == 9 || c == 13
}

pub open spec fn is_digit(c: u8) -> bool {
    48 <= c <= 57
}

/// One byte of the scan. Inside a string only the closing quote counts.
/// Outside, `[` and `{` open a level and `]` and `}` close one; a `}` after a
/// comma and blanks (an object's trailing comma) and an exponent of more
/// than `MAX_EXPONENT_DIGITS` digits are unsafe.
pub open spec fn scan_step(s: Scan, c: u8) -> Scan {
    let out = !s.in_string;
    let opens = out && (c == 91 || c == 123);
    let closes = out && (c == 93 || c == 125);
    let depth = if opens {
        s.depth + 1
    } else if closes && s.depth > 0 {
        s.depth - 1
    } else {
        s.depth
    };
    let starts_exponent = out && (c == 101 || c == 69);
    let in_exponent = starts_exponent || (out && s.in_exponent && (is_digit(c) || ((c == 43
        || c == 45) && s.exp_digits == 0)));
    let exp_digits = if starts_exponent {
        0
    } else if in_exponent && is_digit(c) {
        s.exp_digits + 1
    } else if in_exponent {
        s.exp_digits
    } else {
        0
    };
    Scan {
        depth,
        max: if depth > s.max {
            depth
        } else {
            s.max
        },
        in_string: if s.in_string {
            s.escaped || c != 34
        } else {
            c == 34
        },
        escaped: s.in_string && !s.escaped && c == 92,
        after_comma: out && (c == 44 || (s.after_comma && is_blank(c))),
        in_exponent,
        exp_digits,
        unsafe_seen: s.unsafe_seen || (out && s.after_comma && c == 125) || exp_digits
            > MAX_EXPONENT_DIGITS,
    }
}

pub open spec fn scan(b: Seq<u8>) -> Scan
    decreases b.len(),
{
    if b.len() == 0 {
        Scan {
            depth: 0,
            max: 0,
            in_string: false,
            escaped: false,
            after_comma: false,
            in_exponent: false,
            exp_digits: 0,
            unsafe_seen: false,
        }
    } else {
        scan_step(scan(b.drop_last()), b.last())
    }
}

/// The bytes that the parser takes without panicking: fewer than 65536 (it
/// keeps offsets into its key buffer as `u16`), nested no deeper than
/// `MAX_NESTING`, with no trailing comma in an object (it then pops its
/// stack once too often) and no exponent too long for a `usize`.
pub open spec fn parse_safe(b: Seq<u8>) -> bool {
    b.len() < 65536 && scan(b).max <= MAX_NESTING && !scan(b).unsafe_seen
}

/// Whether the parser takes the bytes safely.
pub fn is_parse_safe(b: &[u8]) -> (r: bool)
    ensures
        r == parse_safe(b@),
{
    if b.len() >= 65536 {
        return false;
    }
    let mut depth: usize = 0;
    let mut max: usize = 0;
    let mut in_string = false;
    let mut escaped = false;
    let mut after_comma = false;
    let mut in_exponent = false;
    let mut exp_digits: usize = 0;
    let mut unsafe_seen = false;
    let mut i: usize = 0;
    while i < b.len()
        invariant
            i <= b.len(),
            depth <= max <= i,
            exp_digits <= i,
            scan(b@.take(i as int)) == (Scan {
                depth: depth as int,
                max: max as int,
                in_string,
                escaped,
                after_comma,
                in_exponent,
                exp_digits: exp_digits as int,
                unsafe_seen,
            }),
        decreases b.len() - i,
    {
        let c = b[i];
        let out = !in_string;
        if out && (c == 91 || c == 123) {
            depth = depth + 1;
        } else if out && (c == 93 || c == 125) && depth > 0 {
            depth = depth - 1;
        }
        if depth > max {
            max = depth;
        }
        let starts_exponent = out && (c == 101 || c == 69);
        let digit = 48 <= c && c <= 57;
        let next_in_exponent = starts_exponent || (out && in_exponent && (digit || ((c == 43
            || c == 45) && exp_digits == 0)));
        if starts_exponent {
            exp_digits = 0;
        } else if next_in_exponent && digit {
            exp_digits = exp_digits + 1;
        } else if !next_in_exponent {
            exp_digits = 0;
        }
        unsafe_seen = unsafe_seen || (out && after_comma && c == 125) || exp_digits
            > MAX_EXPONENT_DIGITS;
        after_comma = out && (c == 44 || (after_comma && (c == 32 || c == 10 || c == 9 || c
            == 13)));
        in_exponent = next_in_exponent;
        if in_string {
            in_string = escaped || c != 34;
            escaped = !escaped && c == 92;
        } else {
            in_string = c == 34;
            escaped = false;
        }
        proof {
            assert(b@.take(i as int + 1).drop_last() =~= b@.take(i as int));
        }
        i = i + 1;
    }
    proof {
        assert(b@.take(b.len() as int) =~= b@);
    }
    max <= MAX_NESTING && !unsafe_seen
}

/// Whether `Json::from_reader` accepts the bytes: they are UTF-8 and the text
/// is one JSON document.
pub uninterp spec fn json_accepts(b: Seq<u8>) -> bool;

/// The document that `Json::from_reader` builds from the bytes.
pub uninterp spec fn json_of(b: Seq<u8>) -> Json;

/// Relies on `rustc_serialize::json::Json::from_reader`, which reads the bytes
/// to their end, fails with `NotUtf8` where they are not UTF-8, and otherwise
/// parses the text as one JSON document; the result depends on the bytes
/// alone. Reading from a slice cannot fail. The parser panics on some inputs
/// (see `parse_safe`), which are refused before the call.
#[verifier::external_body]
pub(crate) fn parse_json(b: &[u8]) -> (r: Result<Json, ParserError>)
    requires
        parse_safe(b@),
    ensures
        r is Ok <==> json_accepts(b@),
        r is Ok ==> r->Ok_0 == json_of(b@),
{
    let mut rdr: &[u8] = b;
    Json::from_reader(&mut rdr)
}

} // verus!
