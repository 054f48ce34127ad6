//! Reading JSON text and provider files into values.
//!
//! The grammar here follows JSON with two deliberate narrowings that
//! match the engine's value model: numbers are signed integers in the
//! 64-bit range, without fraction or exponent, and `\u` string
//! escapes cover the basic plane but not surrogate pairs. Text that
//! falls outside the grammar is carried as plain text instead.

use crate::json::{lemma_views_of, views_of, ValV, Value};
use vstd::prelude::*;
use vstd::string::{StrSliceExecFns, StringSliceAdditionalSpecFns};

verus! {

/// JSON insignificant whitespace.
pub open spec fn spec_is_ws(b: u8) -> bool {
    b == 32 || b == 9 || b == 10 || b == 13
}

/// The first index at or after `i` holding a non-whitespace byte, or
/// the end of the text.
pub open spec fn spec_skip_ws(s: Seq<u8>, i: int) -> int
    decreases s.len() - i,
{
    if 0 <= i < s.len() && spec_is_ws(s[i]) {
        spec_skip_ws(s, i + 1)
    } else {
        i
    }
}

/// The end of the digit run starting at `i`.
pub open spec fn spec_digits_end(s: Seq<u8>, i: int) -> int
    decreases s.len() - i,
{
    if 0 <= i < s.len() && 48 <= s[i] <= 57 {
        spec_digits_end(s, i + 1)
    } else {
        i
    }
}

/// The number the digit run `s[i..j)` denotes.
pub open spec fn spec_digits_val(s: Seq<u8>, i: int, j: int) -> nat
    decreases j - i,
{
    if i >= j {
        0
    } else {
        (spec_digits_val(s, i, j - 1) * 10 + (s[j - 1] - 48)) as nat
    }
}

/// Ten to the `n`.
pub open spec fn spec_pow10(n: nat) -> nat
    decreases n,
{
    if n == 0 {
        1
    } else {
        10 * spec_pow10((n - 1) as nat)
    }
}

/// The bytes between `i` and the end of the run are digits.
pub proof fn lemma_digits_run(s: Seq<u8>, i: int, j: int)
    requires
        i <= j <= spec_digits_end(s, i),
    ensures
        forall|t: int| i <= t < j ==> 48 <= #[trigger] s[t] <= 57,
    decreases j - i,
{
    if i < j {
        lemma_digits_run(s, i + 1, j);
        assert(forall|t: int| i <= t < j ==> 48 <= #[trigger] s[t] <= 57) by {
            assert(48 <= s[i] <= 57);
        }
    }
}

/// The parsed content of a JSON string beginning after its opening
/// quote: the unescaped bytes and the index after the closing quote.
/// Escapes are the short forms and basic-plane `\u` (surrogate pairs
/// excluded); a control byte or an unknown escape fails the parse.
pub open spec fn spec_parse_string(s: Seq<u8>, i: int) -> Option<(Seq<u8>, int)>
    decreases s.len() - i,
{
    if i < 0 || i >= s.len() {
        None
    } else if s[i] == 34 {
        Some((Seq::empty(), i + 1))
    } else if s[i] == 92 {
        if i + 1 >= s.len() {
            None
        } else {
            let e = s[i + 1];
            if e == 117 {
                if i + 6 <= s.len() && spec_is_hex(s[i + 2]) && spec_is_hex(s[i + 3]) && spec_is_hex(
                    s[i + 4],
                ) && spec_is_hex(s[i + 5]) {
                    let cp = ((spec_hex_val(s[i + 2]) * 16 + spec_hex_val(s[i + 3])) * 16
                        + spec_hex_val(s[i + 4])) * 16 + spec_hex_val(s[i + 5]);
                    if cp < 0xD800 || cp >= 0xE000 {
                        match spec_parse_string(s, i + 6) {
                            Some((rest, j)) => Some((spec_utf8_enc(cp) + rest, j)),
                            None => None,
                        }
                    } else {
                        None
                    }
                } else {
                    None
                }
            } else {
                let unescaped: Option<u8> = if e == 34 {
                    Some(34u8)
                } else if e == 92 {
                    Some(92u8)
                } else if e == 47 {
                    Some(47u8)
                } else if e == 98 {
                    Some(8u8)
                } else if e == 102 {
                    Some(12u8)
                } else if e == 110 {
                    Some(10u8)
                } else if e == 114 {
                    Some(13u8)
                } else if e == 116 {
                    Some(9u8)
                } else {
                    None
                };
                match unescaped {
                    Some(b) => match spec_parse_string(s, i + 2) {
                        Some((rest, j)) => Some((seq![b] + rest, j)),
                        None => None,
                    },
                    None => None,
                }
            }
        }
    } else if s[i] < 32 {
        None
    } else {
        match spec_parse_string(s, i + 1) {
            Some((rest, j)) => Some((seq![s[i]] + rest, j)),
            None => None,
        }
    }
}

/// The UTF-8 bytes of a basic-plane code point.
pub open spec fn spec_utf8_enc(cp: nat) -> Seq<u8> {
    if cp < 0x80 {
        seq![cp as u8]
    } else if cp < 0x800 {
        seq![(0xC0 + cp / 64) as u8, (0x80 + cp % 64) as u8]
    } else {
        seq![(0xE0 + cp / 4096) as u8, (0x80 + (cp / 64) % 64) as u8, (0x80 + cp % 64) as u8]
    }
}

/// An ASCII hexadecimal digit.
pub open spec fn spec_is_hex(b: u8) -> bool {
    48 <= b <= 57 || 97 <= b <= 102 || 65 <= b <= 70
}

/// Its value.
pub open spec fn spec_hex_val(b: u8) -> nat {
    if 48 <= b <= 57 {
        (b - 48) as nat
    } else if 97 <= b <= 102 {
        (b - 87) as nat
    } else if 65 <= b <= 70 {
        (b - 55) as nat
    } else {
        0
    }
}

/// The parsed number starting at `i` (a minus sign and digits, no
/// leading zero, fraction or exponent), and the index after it; a
/// value outside the signed 64-bit range is not a number here.
pub open spec fn spec_parse_number(s: Seq<u8>, i: int) -> Option<(ValV, int)> {
    let neg = 0 <= i < s.len() && s[i] == 45;
    let d0 = if neg {
        i + 1
    } else {
        i
    };
    let j = spec_digits_end(s, d0);
    if j == d0 {
        None
    } else if j - d0 > 19 {
        None
    } else if j - d0 > 1 && s[d0] == 48 {
        None
    } else if j < s.len() && (s[j] == 46 || s[j] == 101 || s[j] == 69) {
        None
    } else {
        let mag = spec_digits_val(s, d0, j);
        if neg && mag <= 0x8000_0000_0000_0000 {
            Some((ValV::Int(-(mag as int)), j))
        } else if !neg && mag <= 0x7FFF_FFFF_FFFF_FFFF {
            Some((ValV::Int(mag as int), j))
        } else {
            None
        }
    }
}

/// The parsed JSON value at or after `i`, with the index after it.
/// The fuel bounds the recursion; the entry points hand in more fuel
/// than any text they accept can use.
pub open spec fn spec_parse_value(s: Seq<u8>, i: int, fuel: nat) -> Option<(ValV, int)>
    decreases fuel,
{
    if fuel == 0 {
        None
    } else {
        let i = spec_skip_ws(s, i);
        if i >= s.len() || i < 0 {
            None
        } else if s[i] == 110 {
            if i + 4 <= s.len() && s[i + 1] == 117 && s[i + 2] == 108 && s[i + 3] == 108 {
                Some((ValV::Null, i + 4))
            } else {
                None
            }
        } else if s[i] == 116 {
            if i + 4 <= s.len() && s[i + 1] == 114 && s[i + 2] == 117 && s[i + 3] == 101 {
                Some((ValV::Bool(true), i + 4))
            } else {
                None
            }
        } else if s[i] == 102 {
            if i + 5 <= s.len() && s[i + 1] == 97 && s[i + 2] == 108 && s[i + 3] == 115 && s[i + 4]
                == 101 {
                Some((ValV::Bool(false), i + 5))
            } else {
                None
            }
        } else if s[i] == 34 {
            match spec_parse_string(s, i + 1) {
                Some((content, j)) => Some((ValV::Str(content), j)),
                None => None,
            }
        } else if s[i] == 91 {
            let k = spec_skip_ws(s, i + 1);
            if 0 <= k < s.len() && s[k] == 93 {
                Some((ValV::Arr(Seq::empty()), k + 1))
            } else {
                match spec_parse_items(s, i + 1, (fuel - 1) as nat) {
                    Some((items, j)) => Some((ValV::Arr(items), j)),
                    None => None,
                }
            }
        } else if s[i] == 123 {
            let k = spec_skip_ws(s, i + 1);
            if 0 <= k < s.len() && s[k] == 125 {
                Some((ValV::Obj(Seq::empty()), k + 1))
            } else {
                match spec_parse_members(s, i + 1, (fuel - 1) as nat) {
                    Some((members, j)) => Some((ValV::Obj(members), j)),
                    None => None,
                }
            }
        } else if s[i] == 45 || 48 <= s[i] <= 57 {
            spec_parse_number(s, i)
        } else {
            None
        }
    }
}

/// The parsed elements of an array body, up to and including the
/// closing bracket.
pub open spec fn spec_parse_items(s: Seq<u8>, i: int, fuel: nat) -> Option<(Seq<ValV>, int)>
    decreases fuel,
{
    if fuel == 0 {
        None
    } else {
        match spec_parse_value(s, i, (fuel - 1) as nat) {
            Some((v, j)) => {
                let k = spec_skip_ws(s, j);
                if 0 <= k < s.len() && s[k] == 44 {
                    match spec_parse_items(s, k + 1, (fuel - 1) as nat) {
                        Some((rest, m)) => Some((seq![v] + rest, m)),
                        None => None,
                    }
                } else if 0 <= k < s.len() && s[k] == 93 {
                    Some((seq![v], k + 1))
                } else {
                    None
                }
            },
            None => None,
        }
    }
}

/// The parsed members of an object body, up to and including the
/// closing brace.
pub open spec fn spec_parse_members(s: Seq<u8>, i: int, fuel: nat) -> Option<(
    Seq<(Seq<u8>, ValV)>,
    int,
)>
    decreases fuel,
{
    if fuel == 0 {
        None
    } else {
        let k = spec_skip_ws(s, i);
        if !(0 <= k < s.len() && s[k] == 34) {
            None
        } else {
            match spec_parse_string(s, k + 1) {
                Some((key, j)) => {
                    let c = spec_skip_ws(s, j);
                    if !(0 <= c < s.len() && s[c] == 58) {
                        None
                    } else {
                        match spec_parse_value(s, c + 1, (fuel - 1) as nat) {
                            Some((v, j2)) => {
                                let k2 = spec_skip_ws(s, j2);
                                if 0 <= k2 < s.len() && s[k2] == 44 {
                                    match spec_parse_members(s, k2 + 1, (fuel - 1) as nat) {
                                        Some((rest, m)) => Some((seq![(key, v)] + rest, m)),
                                        None => None,
                                    }
                                } else if 0 <= k2 < s.len() && s[k2] == 125 {
                                    Some((seq![(key, v)], k2 + 1))
                                } else {
                                    None
                                }
                            },
                            None => None,
                        }
                    }
                },
                None => None,
            }
        }
    }
}

/// The fuel the entry points hand the parser: ample for any text
/// whose nesting a byte can pay for.
pub open spec fn spec_fuel(s: Seq<u8>) -> nat {
    3 * s.len() + 8
}

/// The whole text parsed as one JSON document: a value with nothing
/// but whitespace after it.
pub open spec fn spec_parse_json(s: Seq<u8>) -> Option<ValV> {
    match spec_parse_value(s, 0, spec_fuel(s)) {
        Some((v, j)) => if spec_skip_ws(s, j) == s.len() {
            Some(v)
        } else {
            None
        },
        None => None,
    }
}

/// What `str_to_json` yields: the parsed document, or the text itself
/// as a plain string when it is not JSON the engine understands.
pub open spec fn spec_str_to_json(s: Seq<u8>) -> ValV {
    match spec_parse_json(s) {
        Some(v) => v,
        None => ValV::Str(s),
    }
}

fn skip_ws(s: &Vec<u8>, i: usize) -> (r: usize)
    requires
        i <= s@.len(),
    ensures
        r == spec_skip_ws(s@, i as int),
        i <= r <= s@.len(),
    decreases s@.len() - i,
{
    if i < s.len() && (s[i] == 32 || s[i] == 9 || s[i] == 10 || s[i] == 13) {
        skip_ws(s, i + 1)
    } else {
        i
    }
}

fn digits_end(s: &Vec<u8>, i: usize) -> (r: usize)
    requires
        i <= s@.len(),
    ensures
        r == spec_digits_end(s@, i as int),
        i <= r <= s@.len(),
    decreases s@.len() - i,
{
    if i < s.len() && 48 <= s[i] && s[i] <= 57 {
        digits_end(s, i + 1)
    } else {
        i
    }
}

fn parse_string_at(s: &Vec<u8>, i: usize) -> (r: Option<(Vec<u8>, usize)>)
    requires
        i <= s@.len(),
    ensures
        match spec_parse_string(s@, i as int) {
            Some((content, j)) => r matches Some(p) && p.0@ == content && p.1 == j && i < p.1
                <= s@.len(),
            None => r is None,
        },
    decreases s@.len() - i,
{
    if i >= s.len() {
        return None;
    }
    let b = s[i];
    if b == 34 {
        return Some((Vec::new(), i + 1));
    }
    if b == 92 {
        if i + 1 >= s.len() {
            return None;
        }
        let e = s[i + 1];
        if e == 117 {
            if s.len() - i >= 6 && is_hex(s[i + 2]) && is_hex(s[i + 3]) && is_hex(s[i + 4])
                && is_hex(s[i + 5]) {
                let cp: u32 = ((hex_val(s[i + 2]) as u32 * 16 + hex_val(s[i + 3]) as u32) * 16
                    + hex_val(s[i + 4]) as u32) * 16 + hex_val(s[i + 5]) as u32;
                if cp < 0xD800 || cp >= 0xE000 {
                    match parse_string_at(s, i + 6) {
                        Some(p) => {
                            let (rest, j) = p;
                            let mut out: Vec<u8> = Vec::new();
                            if cp < 0x80 {
                                out.push(cp as u8);
                            } else if cp < 0x800 {
                                out.push(0xC0 + (cp / 64) as u8);
                                out.push(0x80 + (cp % 64) as u8);
                            } else {
                                out.push(0xE0 + (cp / 4096) as u8);
                                out.push(0x80 + ((cp / 64) % 64) as u8);
                                out.push(0x80 + (cp % 64) as u8);
                            }
                            proof {
                                assert(out@ =~= spec_utf8_enc(cp as nat));
                            }
                            crate::body::append_bytes(&mut out, rest.as_slice());
                            proof {
                                assert(out@ =~= spec_utf8_enc(cp as nat) + rest@);
                            }
                            Some((out, j))
                        },
                        None => None,
                    }
                } else {
                    None
                }
            } else {
                None
            }
        } else {
            let unescaped: Option<u8> = if e == 34 {
                Some(34u8)
            } else if e == 92 {
                Some(92u8)
            } else if e == 47 {
                Some(47u8)
            } else if e == 98 {
                Some(8u8)
            } else if e == 102 {
                Some(12u8)
            } else if e == 110 {
                Some(10u8)
            } else if e == 114 {
                Some(13u8)
            } else if e == 116 {
                Some(9u8)
            } else {
                None
            };
            match unescaped {
                Some(u) => match parse_string_at(s, i + 2) {
                    Some(p) => {
                        let (rest, j) = p;
                        let mut out: Vec<u8> = Vec::new();
                        out.push(u);
                        crate::body::append_bytes(&mut out, rest.as_slice());
                        proof {
                            assert(out@ =~= seq![u] + rest@);
                        }
                        Some((out, j))
                    },
                    None => None,
                },
                None => None,
            }
        }
    } else if b < 32 {
        None
    } else {
        match parse_string_at(s, i + 1) {
            Some(p) => {
                let (rest, j) = p;
                let mut out: Vec<u8> = Vec::new();
                out.push(b);
                crate::body::append_bytes(&mut out, rest.as_slice());
                proof {
                    assert(out@ =~= seq![b] + rest@);
                }
                Some((out, j))
            },
            None => None,
        }
    }
}

fn is_hex(b: u8) -> (r: bool)
    ensures
        r == spec_is_hex(b),
{
    48 <= b && b <= 57 || 97 <= b && b <= 102 || 65 <= b && b <= 70
}

fn hex_val(b: u8) -> (r: u8)
    ensures
        r as nat == spec_hex_val(b),
        r < 16 || !spec_is_hex(b),
{
    if 48 <= b && b <= 57 {
        b - 48
    } else if 97 <= b && b <= 102 {
        b - 87
    } else if 65 <= b && b <= 70 {
        b - 55
    } else {
        0
    }
}

pub(crate) fn parse_number_at(s: &Vec<u8>, i: usize) -> (r: Option<(Value, usize)>)
    requires
        i < s@.len(),
        s@[i as int] == 45 || 48 <= s@[i as int] <= 57,
    ensures
        match spec_parse_number(s@, i as int) {
            Some((vv, j)) => r matches Some(p) && p.0@ == vv && p.1 == j && i < p.1 <= s@.len(),
            None => r is None,
        },
{
    let n = s.len();
    let neg = s[i] == 45;
    let d0 = if neg {
        i + 1
    } else {
        i
    };
    if d0 > n {
        return None;
    }
    let j = digits_end(s, d0);
    if j == d0 {
        return None;
    }
    if j - d0 > 19 {
        return None;
    }
    if j - d0 > 1 && s[d0] == 48 {
        return None;
    }
    if j < s.len() && (s[j] == 46 || s[j] == 101 || s[j] == 69) {
        return None;
    }
    proof {
        lemma_digits_run(s@, d0 as int, j as int);
        lemma_pow10_mono(0, 18);
        assert(spec_pow10(0) == 1);
        assert(spec_digits_val(s@, d0 as int, d0 as int) == 0);
    }
    let mut mag: u64 = 0;
    let mut t: usize = d0;
    while t < j
        invariant
            d0 <= t <= j,
            j <= s@.len(),
            j - d0 <= 19,
            j == spec_digits_end(s@, d0 as int),
            mag as nat == spec_digits_val(s@, d0 as int, t as int),
            forall|u: int| d0 <= u < j ==> 48 <= #[trigger] s@[u] <= 57,
            mag < spec_pow10((t - d0) as nat),
            spec_pow10((t - d0) as nat) <= spec_pow10(19),
        decreases j - t,
    {
        proof {
            lemma_pow10_mono((t - d0) as nat, 19);
            lemma_pow10_19();
            lemma_pow10_mono((t + 1 - d0) as nat, 19);
        }
        mag = mag * 10 + (s[t] - 48) as u64;
        proof {
            assert(spec_pow10((t + 1 - d0) as nat) == 10 * spec_pow10((t - d0) as nat));
            assert(mag < spec_pow10((t + 1 - d0) as nat)) by (nonlinear_arith)
                requires
                    mag as nat == (mag as nat - (s@[t as int] - 48)) + (s@[t as int] - 48),
                    (mag as nat - (s@[t as int] - 48)) == 10 * spec_digits_val(
                        s@,
                        d0 as int,
                        t as int,
                    ),
                    spec_digits_val(s@, d0 as int, t as int) < spec_pow10((t - d0) as nat),
                    spec_pow10((t + 1 - d0) as nat) == 10 * spec_pow10((t - d0) as nat),
                    s@[t as int] - 48 <= 9,
            ;
        }
        t += 1;
    }
    proof {
        lemma_pow10_mono((j - d0) as nat, 19);
        lemma_pow10_19();
    }
    if neg {
        if mag > 0x8000_0000_0000_0000 {
            return None;
        }
        if mag == 0x8000_0000_0000_0000 {
            return Some((Value::Int(i64::MIN), j));
        }
        let v: i64 = -(mag as i64);
        Some((Value::Int(v), j))
    } else {
        if mag > 0x7FFF_FFFF_FFFF_FFFF {
            return None;
        }
        Some((Value::Int(mag as i64), j))
    }
}

/// Ten to the nineteen, written out.
proof fn lemma_pow10_19()
    ensures
        spec_pow10(19) == 10_000_000_000_000_000_000,
{
    reveal_with_fuel(spec_pow10, 21);
}

proof fn lemma_pow10_mono(a: nat, b: nat)
    requires
        a <= b,
    ensures
        spec_pow10(a) <= spec_pow10(b),
    decreases b,
{
    if a < b {
        lemma_pow10_mono(a, (b - 1) as nat);
        assert(spec_pow10(b) == 10 * spec_pow10((b - 1) as nat));
        assert(spec_pow10((b - 1) as nat) <= 10 * spec_pow10((b - 1) as nat)) by (nonlinear_arith)
            requires
                spec_pow10((b - 1) as nat) >= 0,
        ;
    }
}

fn parse_value_at(s: &Vec<u8>, i: usize, fuel: u64) -> (r: Option<(Value, usize)>)
    requires
        i <= s@.len(),
    ensures
        match spec_parse_value(s@, i as int, fuel as nat) {
            Some((vv, j)) => r matches Some(p) && p.0@ == vv && p.1 == j && p.1 <= s@.len(),
            None => r is None,
        },
    decreases fuel,
{
    if fuel == 0 {
        return None;
    }
    let i = skip_ws(s, i);
    if i >= s.len() {
        return None;
    }
    let b = s[i];
    if b == 110 {
        if s.len() - i >= 4 && s[i + 1] == 117 && s[i + 2] == 108 && s[i + 3] == 108 {
            Some((Value::Null, i + 4))
        } else {
            None
        }
    } else if b == 116 {
        if s.len() - i >= 4 && s[i + 1] == 114 && s[i + 2] == 117 && s[i + 3] == 101 {
            Some((Value::Bool(true), i + 4))
        } else {
            None
        }
    } else if b == 102 {
        if s.len() - i >= 5 && s[i + 1] == 97 && s[i + 2] == 108 && s[i + 3] == 115 && s[i + 4]
            == 101 {
            Some((Value::Bool(false), i + 5))
        } else {
            None
        }
    } else if b == 34 {
        match parse_string_at(s, i + 1) {
            Some(p) => Some((Value::Str(p.0), p.1)),
            None => None,
        }
    } else if b == 91 {
        let k = skip_ws(s, i + 1);
        if k < s.len() && s[k] == 93 {
            Some((Value::Array(Vec::new()), k + 1))
        } else {
            match parse_items_at(s, i + 1, fuel - 1) {
                Some(p) => Some((Value::Array(p.0), p.1)),
                None => None,
            }
        }
    } else if b == 123 {
        let k = skip_ws(s, i + 1);
        if k < s.len() && s[k] == 125 {
            Some((Value::Object(Vec::new()), k + 1))
        } else {
            match parse_members_at(s, i + 1, fuel - 1) {
                Some(p) => Some((Value::Object(p.0), p.1)),
                None => None,
            }
        }
    } else if b == 45 || 48 <= b && b <= 57 {
        parse_number_at(s, i)
    } else {
        None
    }
}

fn parse_items_at(s: &Vec<u8>, i: usize, fuel: u64) -> (r: Option<(Vec<Value>, usize)>)
    requires
        i <= s@.len(),
    ensures
        match spec_parse_items(s@, i as int, fuel as nat) {
            Some((items, j)) => r matches Some(p) && views_of(p.0@) == items && p.1 == j && p.1
                <= s@.len(),
            None => r is None,
        },
    decreases fuel,
{
    if fuel == 0 {
        return None;
    }
    match parse_value_at(s, i, fuel - 1) {
        Some(p) => {
            let (v, j) = p;
            let k = skip_ws(s, j);
            if k < s.len() && s[k] == 44 {
                match parse_items_at(s, k + 1, fuel - 1) {
                    Some(q) => {
                        let (rest, m) = q;
                        let ghost rest_views = views_of(rest@);
                        let ghost pre_rest = rest@;
                        let ghost gv = v@;
                        let mut out = rest;
                        out.insert(0, v);
                        proof {
                            lemma_views_of(out@);
                            lemma_views_of(pre_rest);
                            assert(views_of(out@) =~= seq![gv] + rest_views);
                        }
                        Some((out, m))
                    },
                    None => None,
                }
            } else if k < s.len() && s[k] == 93 {
                let mut out: Vec<Value> = Vec::new();
                out.push(v);
                proof {
                    lemma_views_of(out@);
                    assert(views_of(out@) =~= seq![v@]);
                }
                Some((out, k + 1))
            } else {
                None
            }
        },
        None => None,
    }
}

fn parse_members_at(s: &Vec<u8>, i: usize, fuel: u64) -> (r: Option<(Vec<(Vec<u8>, Value)>, usize)>)
    requires
        i <= s@.len(),
    ensures
        match spec_parse_members(s@, i as int, fuel as nat) {
            Some((members, j)) => r matches Some(p) && crate::json::pair_views_of(p.0@) == members
                && p.1 == j && p.1 <= s@.len(),
            None => r is None,
        },
    decreases fuel,
{
    if fuel == 0 {
        return None;
    }
    let k = skip_ws(s, i);
    if !(k < s.len() && s[k] == 34) {
        return None;
    }
    match parse_string_at(s, k + 1) {
        Some(p) => {
            let (key, j) = p;
            let c = skip_ws(s, j);
            if !(c < s.len() && s[c] == 58) {
                return None;
            }
            match parse_value_at(s, c + 1, fuel - 1) {
                Some(q) => {
                    let (v, j2) = q;
                    let k2 = skip_ws(s, j2);
                    if k2 < s.len() && s[k2] == 44 {
                        match parse_members_at(s, k2 + 1, fuel - 1) {
                            Some(q2) => {
                                let (rest, m) = q2;
                                let ghost rest_views = crate::json::pair_views_of(rest@);
                                let ghost pre_rest = rest@;
                                let ghost gk = key@;
                                let ghost gv = v@;
                                let mut out = rest;
                                out.insert(0, (key, v));
                                proof {
                                    crate::json::lemma_pair_views_of(out@);
                                    crate::json::lemma_pair_views_of(pre_rest);
                                    assert(crate::json::pair_views_of(out@) =~= seq![(gk, gv)]
                                        + rest_views);
                                }
                                Some((out, m))
                            },
                            None => None,
                        }
                    } else if k2 < s.len() && s[k2] == 125 {
                        let ghost gk = key@;
                        let ghost gv = v@;
                        let mut out: Vec<(Vec<u8>, Value)> = Vec::new();
                        out.push((key, v));
                        proof {
                            crate::json::lemma_pair_views_of(out@);
                            assert(crate::json::pair_views_of(out@) =~= seq![(gk, gv)]);
                        }
                        Some((out, k2 + 1))
                    } else {
                        None
                    }
                },
                None => None,
            }
        },
        None => None,
    }
}

/// Parses a whole text as one JSON document.
pub fn parse_json(s: &Vec<u8>) -> (r: Option<Value>)
    requires
        s@.len() <= 0x1000_0000_0000_0000,
    ensures
        match spec_parse_json(s@) {
            Some(vv) => r matches Some(v) && v@ == vv,
            None => r is None,
        },
{
    let fuel: u64 = 3 * (s.len() as u64) + 8;
    match parse_value_at(s, 0, fuel) {
        Some(p) => {
            let (v, j) = p;
            if skip_ws(s, j) == s.len() {
                Some(v)
            } else {
                None
            }
        },
        None => None,
    }
}

/// Reads a text as a JSON value, as values arrive from files and
/// responses: a JSON document gives its value, anything else is the
/// text itself as a plain string.
pub fn str_to_json(s: &str) -> (r: Value)
    requires
        s.spec_bytes().len() <= 0x1000_0000_0000_0000,
    ensures
        r@ == spec_str_to_json(s.spec_bytes()),
{
    let bytes = s.as_bytes_vec();
    match parse_json(&bytes) {
        Some(v) => v,
        None => Value::Str(bytes),
    }
}

} // verus!
