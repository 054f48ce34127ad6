//! The file providers' readers: turning a file's bytes into the
//! values its provider replays.
//!
//! Three formats share the contract: a finite sequence of values in
//! file order. Lines give one text value per non-empty line; JSON
//! files give either a top-level array's elements or one value per
//! non-empty line; CSV gives one object per row, with cells read
//! optimistically as `null`, booleans, integers, or text. Quoted CSV
//! fields follow the doubled-quote convention; a quoted field does
//! not span lines here.

use crate::error::TestError;
use crate::json::{
    lemma_pair_views_of, lemma_views_of, pair_views_of, spec_dec_digits, views_of, ValV, Value,
};
use crate::parse::{
    spec_digits_end, spec_parse_json, spec_parse_number,
};
use vstd::prelude::*;

verus! {

/// The byte sequences a list of byte vectors holds.
pub open spec fn byte_views(s: Seq<Vec<u8>>) -> Seq<Seq<u8>>
    decreases s.len(),
{
    if s.len() == 0 {
        Seq::empty()
    } else {
        byte_views(s.drop_last()).push(s.last()@)
    }
}

pub broadcast proof fn lemma_byte_views(s: Seq<Vec<u8>>)
    ensures
        (#[trigger] byte_views(s)).len() == s.len(),
        forall|i: int| 0 <= i < s.len() ==> byte_views(s)[i] == s[i]@,
    decreases s.len(),
{
    if s.len() > 0 {
        lemma_byte_views(s.drop_last());
    }
}

/// The first newline at or after `i`, or the end of the text.
pub open spec fn spec_first_nl(s: Seq<u8>, i: int) -> int
    decreases s.len() - i,
{
    if 0 <= i < s.len() && s[i] != 10 {
        spec_first_nl(s, i + 1)
    } else {
        i
    }
}

/// A line with its trailing carriage return stripped.
pub open spec fn spec_clean_line(line: Seq<u8>) -> Seq<u8> {
    if line.len() > 0 && line.last() == 13 {
        line.drop_last()
    } else {
        line
    }
}

/// The non-empty cleaned lines of `s` from `i` on. The fuel bounds
/// the recursion; the entry point hands in more than any text can
/// use.
pub open spec fn spec_lines_from(s: Seq<u8>, i: int, fuel: nat) -> Seq<Seq<u8>>
    decreases fuel,
{
    if fuel == 0 || i >= s.len() || i < 0 {
        Seq::empty()
    } else {
        let j = spec_first_nl(s, i);
        let line = spec_clean_line(s.subrange(i, j));
        let rest = spec_lines_from(s, j + 1, (fuel - 1) as nat);
        if line.len() == 0 {
            rest
        } else {
            seq![line] + rest
        }
    }
}

/// The non-empty cleaned lines of a text.
pub open spec fn spec_lines(s: Seq<u8>) -> Seq<Seq<u8>> {
    spec_lines_from(s, 0, s.len() + 2)
}

fn first_nl(s: &Vec<u8>, i: usize) -> (r: usize)
    requires
        i <= s@.len(),
    ensures
        r == spec_first_nl(s@, i as int),
        i <= r <= s@.len(),
    decreases s@.len() - i,
{
    if i < s.len() && s[i] != 10 {
        first_nl(s, i + 1)
    } else {
        i
    }
}

/// Copies `s[i..j)`.
fn sub_bytes(s: &Vec<u8>, i: usize, j: usize) -> (r: Vec<u8>)
    requires
        i <= j <= s@.len(),
    ensures
        r@ == s@.subrange(i as int, j as int),
{
    let mut out: Vec<u8> = Vec::new();
    let mut t: usize = i;
    while t < j
        invariant
            i <= t <= j <= s@.len(),
            out@ == s@.subrange(i as int, t as int),
        decreases j - t,
    {
        out.push(s[t]);
        proof {
            assert(s@.subrange(i as int, t + 1) =~= s@.subrange(i as int, t as int).push(
                s@[t as int],
            ));
        }
        t += 1;
    }
    out
}

fn clean_line(line: Vec<u8>) -> (r: Vec<u8>)
    ensures
        r@ == spec_clean_line(line@),
{
    let ghost pre = line@;
    let mut line = line;
    if line.len() > 0 && line[line.len() - 1] == 13 {
        let _ = line.pop();
        proof {
            assert(line@ =~= spec_clean_line(pre));
        }
    }
    line
}

fn lines_from(s: &Vec<u8>, i: usize, fuel: u64) -> (r: Vec<Vec<u8>>)
    requires
        i <= s@.len(),
    ensures
        byte_views(r@) == spec_lines_from(s@, i as int, fuel as nat),
    decreases fuel,
{
    if fuel == 0 || i >= s.len() {
        let r: Vec<Vec<u8>> = Vec::new();
        proof {
            lemma_byte_views(r@);
            assert(byte_views(r@) =~= spec_lines_from(s@, i as int, fuel as nat));
        }
        return r;
    }
    let j = first_nl(s, i);
    let line = clean_line(sub_bytes(s, i, j));
    let rest = if j < s.len() {
        lines_from(s, j + 1, fuel - 1)
    } else {
        let e: Vec<Vec<u8>> = Vec::new();
        proof {
            lemma_byte_views(e@);
            assert(byte_views(e@) =~= spec_lines_from(s@, j + 1, (fuel - 1) as nat));
        }
        e
    };
    if line.len() == 0 {
        rest
    } else {
        let ghost pre = rest@;
        let mut out = rest;
        out.insert(0, line);
        proof {
            lemma_byte_views(out@);
            lemma_byte_views(pre);
            assert(byte_views(out@) =~= seq![line@] + byte_views(pre));
        }
        out
    }
}

/// Splits a text into its non-empty lines, carriage returns stripped.
pub fn split_lines(s: &Vec<u8>) -> (r: Vec<Vec<u8>>)
    requires
        s@.len() <= 0x1000_0000_0000_0000,
    ensures
        byte_views(r@) == spec_lines(s@),
{
    let fuel: u64 = (s.len() as u64) + 2;
    lines_from(s, 0, fuel)
}

/// The values of a line-format file: each non-empty line, as text.
pub open spec fn spec_line_values(s: Seq<u8>) -> Seq<ValV> {
    spec_lines(s).map_values(|line: Seq<u8>| ValV::Str(line))
}

/// Every line of a text is no longer than the text.
pub proof fn lemma_lines_bounded(s: Seq<u8>, i: int, fuel: nat)
    ensures
        forall|t: int|
            0 <= t < spec_lines_from(s, i, fuel).len() ==> #[trigger] spec_lines_from(
                s,
                i,
                fuel,
            )[t].len() <= s.len(),
    decreases fuel,
{
    if !(fuel == 0 || i >= s.len() || i < 0) {
        let j = spec_first_nl(s, i);
        lemma_first_nl_bounds(s, i);
        lemma_lines_bounded(s, j + 1, (fuel - 1) as nat);
        let line = spec_clean_line(s.subrange(i, j));
        let rest = spec_lines_from(s, j + 1, (fuel - 1) as nat);
        assert(line.len() <= s.len());
        if line.len() != 0 {
            assert(spec_lines_from(s, i, fuel) == seq![line] + rest);
            assert forall|t: int|
                0 <= t < spec_lines_from(s, i, fuel).len() implies #[trigger] spec_lines_from(
                s,
                i,
                fuel,
            )[t].len() <= s.len() by {
                if t > 0 {
                    assert((seq![line] + rest)[t] == rest[t - 1]);
                }
            }
        }
    }
}

/// The first newline lies between `i` and the end.
pub proof fn lemma_first_nl_bounds(s: Seq<u8>, i: int)
    requires
        0 <= i <= s.len(),
    ensures
        i <= spec_first_nl(s, i) <= s.len(),
    decreases s.len() - i,
{
    if 0 <= i < s.len() && s[i] != 10 {
        lemma_first_nl_bounds(s, i + 1);
    }
}

/// Reads a line-format file's bytes: one text value per non-empty
/// line, in file order.
pub fn line_values(s: &Vec<u8>) -> (r: Vec<Value>)
    requires
        s@.len() <= 0x1000_0000_0000_0000,
    ensures
        views_of(r@) == spec_line_values(s@),
{
    let lines = split_lines(s);
    let ghost line_seqs = byte_views(lines@);
    let ghost mapped = line_seqs.map_values(|line: Seq<u8>| ValV::Str(line));
    let mut out: Vec<Value> = Vec::new();
    proof {
        lemma_byte_views(lines@);
        assert(views_of(out@) =~= mapped.take(0));
    }
    let mut k: usize = 0;
    while k < lines.len()
        invariant
            k <= lines@.len(),
            line_seqs == byte_views(lines@),
            mapped == line_seqs.map_values(|line: Seq<u8>| ValV::Str(line)),
            views_of(out@) =~= mapped.take(k as int),
        decreases lines@.len() - k,
    {
        proof {
            lemma_byte_views(lines@);
        }
        let line = lines[k].clone();
        proof {
            assert(line@ =~= lines@[k as int]@);
        }
        let ghost pre_out = out@;
        out.push(Value::Str(line));
        proof {
            lemma_views_of(out@);
            lemma_views_of(pre_out);
            assert(out@.last()@ == ValV::Str(line_seqs[k as int]));
            assert(views_of(out@) =~= mapped.take(k + 1));
        }
        k += 1;
    }
    proof {
        assert(views_of(out@) =~= mapped);
        assert(views_of(out@) =~= spec_line_values(s@));
    }
    out
}

/// The values of a JSON-format file: a top-level array's elements,
/// else one JSON document per non-empty line.
pub open spec fn spec_json_file_values(s: Seq<u8>) -> Option<Seq<ValV>> {
    match spec_parse_json(s) {
        Some(v) => match v {
            ValV::Arr(items) => Some(items),
            other => Some(seq![other]),
        },
        None => spec_ndjson_values(spec_lines(s)),
    }
}

/// One JSON document per line; any line that is not one fails the
/// file.
pub open spec fn spec_ndjson_values(lines: Seq<Seq<u8>>) -> Option<Seq<ValV>>
    decreases lines.len(),
{
    if lines.len() == 0 {
        Some(Seq::empty())
    } else {
        match spec_parse_json(lines[0]) {
            Some(v) => match spec_ndjson_values(lines.drop_first()) {
                Some(rest) => Some(seq![v] + rest),
                None => None,
            },
            None => None,
        }
    }
}

/// Reads a JSON-format file's bytes: the elements of a top-level
/// array, a single document's value, or one value per non-empty line;
/// anything else is a configuration error.
#[verifier::rlimit(80)]
#[verifier::loop_isolation(false)]
pub fn json_file_values(s: &Vec<u8>) -> (r: Result<Vec<Value>, TestError>)
    requires
        s@.len() <= 0x1000_0000_0000_0000,
    ensures
        match spec_json_file_values(s@) {
            Some(vals) => r matches Ok(vs) && views_of(vs@) == vals,
            None => r is Err,
        },
{
    match crate::parse::parse_json(s) {
        Some(v) => match v {
            Value::Array(items) => Ok(items),
            other => {
                let mut out: Vec<Value> = Vec::new();
                out.push(other);
                proof {
                    lemma_views_of(out@);
                    assert(views_of(out@) =~= seq![out@[0]@]);
                }
                Ok(out)
            },
        },
        None => {
            let lines = split_lines(s);
            let ghost line_seqs = byte_views(lines@);
            proof {
                lemma_lines_bounded(s@, 0, (s@.len() + 2) as nat);
                lemma_byte_views(lines@);
            }
            let mut out: Vec<Value> = Vec::new();
            proof {
                assert(line_seqs.skip(0) =~~= line_seqs);
                assert(views_of(out@) =~= Seq::<ValV>::empty());
                match spec_ndjson_values(line_seqs) {
                    Some(rest) => {
                        assert(views_of(out@) + rest =~= rest);
                    },
                    None => {
                    },
                }
            }
            let mut k: usize = 0;
            while k < lines.len()
                invariant
                    s@.len() <= 0x1000_0000_0000_0000,
                    k <= lines@.len(),
                    line_seqs == byte_views(lines@),
                    forall|t: int|
                        0 <= t < line_seqs.len() ==> #[trigger] line_seqs[t].len() <= s@.len(),
                    match spec_ndjson_values(line_seqs.skip(k as int)) {
                        Some(rest) => spec_ndjson_values(line_seqs) == Some(views_of(out@) + rest),
                        None => spec_ndjson_values(line_seqs) is None,
                    },
                decreases lines@.len() - k,
            {
                proof {
                    lemma_byte_views(lines@);
                }
                let line = &lines[k];
                proof {
                    assert(line@ == line_seqs[k as int]);
                    assert(line_seqs.skip(k as int)[0] == line_seqs[k as int]);
                    assert(line_seqs.skip(k as int).drop_first() =~~= line_seqs.skip(k + 1));
                }
                match crate::parse::parse_json(line) {
                    Some(v) => {
                        let ghost pre_out = out@;
                        out.push(v);
                        proof {
                            lemma_views_of(out@);
                            lemma_views_of(pre_out);
                            assert(views_of(out@) =~= views_of(pre_out).push(out@.last()@));
                            match spec_ndjson_values(line_seqs.skip(k + 1)) {
                                Some(rest) => {
                                    assert(spec_ndjson_values(line_seqs.skip(k as int)) == Some(
                                        seq![out@.last()@] + rest,
                                    ));
                                    assert(views_of(out@) + rest =~= views_of(pre_out) + (
                                    seq![out@.last()@] + rest));
                                },
                                None => {
                                },
                            }
                        }
                    },
                    None => {
                        proof {
                            assert(line_seqs.skip(k as int).len() > 0);
                            assert(line_seqs.skip(k as int)[0] == line@);
                            assert(spec_parse_json(line_seqs.skip(k as int)[0]) is None);
                            assert(spec_ndjson_values(line_seqs.skip(k as int)) is None);
                            assert(spec_ndjson_values(line_seqs) is None);
                            assert(line_seqs == spec_lines(s@));
                            assert(spec_parse_json(s@) is None);
                            assert(spec_json_file_values(s@) is None);
                        }
                        return Err(
                            TestError::Other(
                                String::from_str("reading file: a line is not a JSON value"),
                            ),
                        );
                    },
                }
                k += 1;
            }
            proof {
                lemma_byte_views(lines@);
                assert(line_seqs.skip(line_seqs.len() as int).len() == 0);
                assert(spec_ndjson_values(line_seqs.skip(line_seqs.len() as int)) == Some(
                    Seq::<ValV>::empty(),
                ));
                assert(views_of(out@) + Seq::<ValV>::empty() =~= views_of(out@));
            }
            Ok(out)
        },
    }
}

/// One CSV cell read optimistically: `null`, `true`, `false`, an
/// integer the number grammar accepts, else the cell's text.
pub open spec fn spec_cell(cell: Seq<u8>) -> ValV {
    if cell =~= seq![110u8, 117u8, 108u8, 108u8] {
        ValV::Null
    } else if cell =~= seq![116u8, 114u8, 117u8, 101u8] {
        ValV::Bool(true)
    } else if cell =~= seq![102u8, 97u8, 108u8, 115u8, 101u8] {
        ValV::Bool(false)
    } else {
        match spec_parse_number(cell, 0) {
            Some((v, j)) => if j == cell.len() {
                v
            } else {
                ValV::Str(cell)
            },
            None => ValV::Str(cell),
        }
    }
}

/// The first delimiter at or after `i`, or the end of the line.
pub open spec fn spec_field_end(line: Seq<u8>, i: int, delim: u8) -> int
    decreases line.len() - i,
{
    if 0 <= i < line.len() && line[i] != delim {
        spec_field_end(line, i + 1, delim)
    } else {
        i
    }
}

/// The content of a quoted field beginning after its opening quote,
/// and the index after its closing quote: a doubled quote stands for
/// one quote; an unterminated field fails the row.
pub open spec fn spec_quoted(line: Seq<u8>, i: int, quote: u8) -> Option<(Seq<u8>, int)>
    decreases line.len() - i,
{
    if i < 0 || i >= line.len() {
        None
    } else if line[i] == quote {
        if i + 1 < line.len() && line[i + 1] == quote {
            match spec_quoted(line, i + 2, quote) {
                Some((rest, j)) => Some((seq![quote] + rest, j)),
                None => None,
            }
        } else {
            Some((Seq::empty(), i + 1))
        }
    } else {
        match spec_quoted(line, i + 1, quote) {
            Some((rest, j)) => Some((seq![line[i]] + rest, j)),
            None => None,
        }
    }
}

/// The fields of one row from `i` on. A field either starts with the
/// quote and runs to its closing quote, or runs to the next
/// delimiter. Text after a closing quote fails the row.
pub open spec fn spec_fields_from(
    line: Seq<u8>,
    i: int,
    delim: u8,
    quote: u8,
    fuel: nat,
) -> Option<Seq<Seq<u8>>>
    decreases fuel,
{
    if fuel == 0 || i < 0 || i > line.len() {
        None
    } else if i < line.len() && line[i] == quote {
        match spec_quoted(line, i + 1, quote) {
            Some((content, j)) => if j == line.len() {
                Some(seq![content])
            } else if line[j] == delim {
                match spec_fields_from(line, j + 1, delim, quote, (fuel - 1) as nat) {
                    Some(rest) => Some(seq![content] + rest),
                    None => None,
                }
            } else {
                None
            },
            None => None,
        }
    } else {
        let j = spec_field_end(line, i, delim);
        let content = line.subrange(i, j);
        if j == line.len() {
            Some(seq![content])
        } else {
            match spec_fields_from(line, j + 1, delim, quote, (fuel - 1) as nat) {
                Some(rest) => Some(seq![content] + rest),
                None => None,
            }
        }
    }
}

/// The fields of one row.
pub open spec fn spec_fields(line: Seq<u8>, delim: u8, quote: u8) -> Option<Seq<Seq<u8>>> {
    spec_fields_from(line, 0, delim, quote, line.len() + 2)
}

fn field_end(line: &Vec<u8>, i: usize, delim: u8) -> (r: usize)
    requires
        i <= line@.len(),
    ensures
        r == spec_field_end(line@, i as int, delim),
        i <= r <= line@.len(),
    decreases line@.len() - i,
{
    if i < line.len() && line[i] != delim {
        field_end(line, i + 1, delim)
    } else {
        i
    }
}

fn quoted_at(line: &Vec<u8>, i: usize, quote: u8) -> (r: Option<(Vec<u8>, usize)>)
    requires
        i <= line@.len(),
    ensures
        match spec_quoted(line@, i as int, quote) {
            Some((content, j)) => r matches Some(p) && p.0@ == content && p.1 == j && i < p.1
                <= line@.len(),
            None => r is None,
        },
    decreases line@.len() - i,
{
    if i >= line.len() {
        return None;
    }
    if line[i] == quote {
        if i + 1 < line.len() && line[i + 1] == quote {
            match quoted_at(line, i + 2, quote) {
                Some(p) => {
                    let (rest, j) = p;
                    let mut out: Vec<u8> = Vec::new();
                    out.push(quote);
                    crate::body::append_bytes(&mut out, rest.as_slice());
                    proof {
                        assert(out@ =~= seq![quote] + rest@);
                    }
                    Some((out, j))
                },
                None => None,
            }
        } else {
            Some((Vec::new(), i + 1))
        }
    } else {
        match quoted_at(line, i + 1, quote) {
            Some(p) => {
                let (rest, j) = p;
                let b = line[i];
                let mut out: Vec<u8> = Vec::new();
                out.push(b);
                crate::body::append_bytes(&mut out, rest.as_slice());
                proof {
                    assert(out@ =~= seq![b] + rest@);
                }
                Some((out, j))
            },
            None => None,
        }
    }
}

fn fields_from(line: &Vec<u8>, i: usize, delim: u8, quote: u8, fuel: u64) -> (r: Option<
    Vec<Vec<u8>>,
>)
    requires
        i <= line@.len(),
    ensures
        match spec_fields_from(line@, i as int, delim, quote, fuel as nat) {
            Some(fields) => r matches Some(f) && byte_views(f@) == fields,
            None => r is None,
        },
    decreases fuel,
{
    if fuel == 0 {
        return None;
    }
    if i < line.len() && line[i] == quote {
        match quoted_at(line, i + 1, quote) {
            Some(p) => {
                let (content, j) = p;
                if j == line.len() {
                    let mut out: Vec<Vec<u8>> = Vec::new();
                    out.push(content);
                    proof {
                        lemma_byte_views(out@);
                        assert(byte_views(out@) =~= seq![out@[0]@]);
                    }
                    Some(out)
                } else if line[j] == delim {
                    match fields_from(line, j + 1, delim, quote, fuel - 1) {
                        Some(rest) => {
                            let ghost pre = rest@;
                            let ghost c = content@;
                            let mut out = rest;
                            out.insert(0, content);
                            proof {
                                lemma_byte_views(out@);
                                lemma_byte_views(pre);
                                assert(byte_views(out@) =~= seq![c] + byte_views(pre));
                            }
                            Some(out)
                        },
                        None => None,
                    }
                } else {
                    None
                }
            },
            None => None,
        }
    } else {
        let j = field_end(line, i, delim);
        let content = sub_bytes(line, i, j);
        if j == line.len() {
            let mut out: Vec<Vec<u8>> = Vec::new();
            out.push(content);
            proof {
                lemma_byte_views(out@);
                assert(byte_views(out@) =~= seq![out@[0]@]);
            }
            Some(out)
        } else {
            match fields_from(line, j + 1, delim, quote, fuel - 1) {
                Some(rest) => {
                    let ghost pre = rest@;
                    let ghost c = content@;
                    let mut out = rest;
                    out.insert(0, content);
                    proof {
                        lemma_byte_views(out@);
                        lemma_byte_views(pre);
                        assert(byte_views(out@) =~= seq![c] + byte_views(pre));
                    }
                    Some(out)
                },
                None => None,
            }
        }
    }
}

/// Splits one CSV row into its fields.
pub fn csv_fields(line: &Vec<u8>, delim: u8, quote: u8) -> (r: Option<Vec<Vec<u8>>>)
    requires
        line@.len() <= 0x1000_0000_0000_0000,
    ensures
        match spec_fields(line@, delim, quote) {
            Some(fields) => r matches Some(f) && byte_views(f@) == fields,
            None => r is None,
        },
{
    let fuel: u64 = (line.len() as u64) + 2;
    fields_from(line, 0, delim, quote, fuel)
}

/// Reads one CSV cell optimistically.
pub fn cell_value(cell: Vec<u8>) -> (r: Value)
    ensures
        r@ == spec_cell(cell@),
{
    if cell.len() == 4 && cell[0] == 110 && cell[1] == 117 && cell[2] == 108 && cell[3] == 108 {
        proof {
            assert(cell@ =~= seq![110u8, 117u8, 108u8, 108u8]);
        }
        return Value::Null;
    }
    if cell.len() == 4 && cell[0] == 116 && cell[1] == 114 && cell[2] == 117 && cell[3] == 101 {
        proof {
            assert(cell@ =~= seq![116u8, 114u8, 117u8, 101u8]);
        }
        return Value::Bool(true);
    }
    if cell.len() == 5 && cell[0] == 102 && cell[1] == 97 && cell[2] == 108 && cell[3] == 115
        && cell[4] == 101 {
        proof {
            assert(cell@ =~= seq![102u8, 97u8, 108u8, 115u8, 101u8]);
        }
        return Value::Bool(false);
    }
    proof {
        assert(!(cell@ =~= seq![110u8, 117u8, 108u8, 108u8]));
        assert(!(cell@ =~= seq![116u8, 114u8, 117u8, 101u8]));
        assert(!(cell@ =~= seq![102u8, 97u8, 108u8, 115u8, 101u8]));
    }
    if cell.len() > 0 && (cell[0] == 45 || 48 <= cell[0] && cell[0] <= 57) {
        match crate::parse::parse_number_at(&cell, 0) {
            Some(p) => {
                let (v, j) = p;
                if j == cell.len() {
                    return v;
                }
                return Value::Str(cell);
            },
            None => {
                return Value::Str(cell);
            },
        }
    }
    proof {
        if cell@.len() > 0 {
            assert(spec_parse_number(cell@, 0) is None || !(cell@[0] == 45 || 48 <= cell@[0]
                <= 57)) by {
                if !(cell@[0] == 45 || 48 <= cell@[0] <= 57) {
                } else {
                }
            }
        } else {
            assert(spec_digits_end(cell@, 0) == 0);
        }
    }
    Value::Str(cell)
}

/// How a CSV file names its columns.
#[derive(Debug, Clone)]
pub enum CsvHeaders {
    /// The first row holds the column names.
    FirstRow,
    /// The configuration supplies them.
    Given(Vec<Vec<u8>>),
    /// Columns are named by their decimal position.
    Positional,
}

/// A row as an object under positional column names.
pub open spec fn spec_positional_pairs(cells: Seq<Seq<u8>>) -> Seq<(Seq<u8>, ValV)> {
    Seq::new(cells.len(), |t: int| (spec_dec_digits(t as nat), spec_cell(cells[t])))
}

/// A row as an object under the given column names; extra cells or
/// names beyond the shorter of the two are dropped.
pub open spec fn spec_named_pairs(h: Seq<Seq<u8>>, cells: Seq<Seq<u8>>) -> Seq<(Seq<u8>, ValV)> {
    Seq::new(vstd::math::min(h.len() as int, cells.len() as int) as nat, |t: int| (h[t], spec_cell(cells[t])))
}

/// One row's object value.
pub open spec fn spec_row_value(h: Option<Seq<Seq<u8>>>, cells: Seq<Seq<u8>>) -> ValV {
    match h {
        Some(names) => ValV::Obj(spec_named_pairs(names, cells)),
        None => ValV::Obj(spec_positional_pairs(cells)),
    }
}

/// The rows of a CSV file as objects; a malformed row fails the file.
pub open spec fn spec_csv_rows(
    lines: Seq<Seq<u8>>,
    h: Option<Seq<Seq<u8>>>,
    delim: u8,
    quote: u8,
) -> Option<Seq<ValV>>
    decreases lines.len(),
{
    if lines.len() == 0 {
        Some(Seq::empty())
    } else {
        match spec_fields(lines[0], delim, quote) {
            Some(cells) => match spec_csv_rows(lines.drop_first(), h, delim, quote) {
                Some(rest) => Some(seq![spec_row_value(h, cells)] + rest),
                None => None,
            },
            None => None,
        }
    }
}

/// The values of a CSV file: one object per non-empty row, keyed per
/// the headers configuration.
pub open spec fn spec_csv_values(
    content: Seq<u8>,
    headers: CsvHeaders,
    delim: u8,
    quote: u8,
) -> Option<Seq<ValV>> {
    let lines = spec_lines(content);
    match headers {
        CsvHeaders::FirstRow => if lines.len() == 0 {
            Some(Seq::empty())
        } else {
            match spec_fields(lines[0], delim, quote) {
                Some(h) => spec_csv_rows(lines.drop_first(), Some(h), delim, quote),
                None => None,
            }
        },
        CsvHeaders::Given(h) => spec_csv_rows(lines, Some(byte_views(h@)), delim, quote),
        CsvHeaders::Positional => spec_csv_rows(lines, None, delim, quote),
    }
}

/// Builds one row's object from its cells.
#[verifier::loop_isolation(false)]
fn row_value(h: Option<&Vec<Vec<u8>>>, cells: Vec<Vec<u8>>) -> (r: Value)
    ensures
        r@ == spec_row_value(
            match h {
                Some(names) => Some(byte_views(names@)),
                None => None,
            },
            byte_views(cells@),
        ),
{
    let ghost cell_seqs = byte_views(cells@);
    proof {
        lemma_byte_views(cells@);
    }
    let n: usize = match h {
        Some(names) => {
            proof {
                lemma_byte_views(names@);
            }
            if names.len() < cells.len() {
                names.len()
            } else {
                cells.len()
            }
        },
        None => cells.len(),
    };
    let ghost target = match h {
        Some(names) => spec_named_pairs(byte_views(names@), cell_seqs),
        None => spec_positional_pairs(cell_seqs),
    };
    let mut pairs: Vec<(Vec<u8>, Value)> = Vec::new();
    proof {
        assert(pair_views_of(pairs@) =~= target.take(0));
    }
    let mut t: usize = 0;
    while t < n
        invariant
            t <= n,
            n as int == target.len(),
            pair_views_of(pairs@) =~= target.take(t as int),
        decreases n - t,
    {
        proof {
            lemma_byte_views(cells@);
        }
        let key: Vec<u8> = match h {
            Some(names) => {
                proof {
                    lemma_byte_views(names@);
                }
                let k = names[t].clone();
                proof {
                    assert(k@ =~= names@[t as int]@);
                }
                k
            },
            None => {
                let mut k: Vec<u8> = Vec::new();
                crate::json::push_dec_digits(&mut k, t as u64);
                k
            },
        };
        let cv = cells[t].clone();
        proof {
            assert(cv@ =~= cells@[t as int]@);
        }
        let val = cell_value(cv);
        let ghost pre = pairs@;
        pairs.push((key, val));
        proof {
            lemma_pair_views_of(pairs@);
            lemma_pair_views_of(pre);
            assert(pair_views_of(pairs@) =~= target.take(t + 1));
        }
        t += 1;
    }
    proof {
        assert(pair_views_of(pairs@) =~= target);
    }
    Value::Object(pairs)
}

/// Reads a CSV file's bytes: one object per non-empty row, cells
/// read optimistically, keyed per the headers configuration; a
/// malformed row is a configuration error.
#[verifier::loop_isolation(false)]
#[verifier::rlimit(80)]
pub fn csv_values(content: &Vec<u8>, headers: &CsvHeaders, delim: u8, quote: u8) -> (r: Result<
    Vec<Value>,
    TestError,
>)
    requires
        content@.len() <= 0x1000_0000_0000_0000,
    ensures
        match spec_csv_values(content@, *headers, delim, quote) {
            Some(vals) => r matches Ok(vs) && views_of(vs@) == vals,
            None => r is Err,
        },
{
    let lines = split_lines(content);
    let ghost line_seqs = byte_views(lines@);
    proof {
        lemma_byte_views(lines@);
        lemma_lines_bounded(content@, 0, (content@.len() + 2) as nat);
    }
    let mut start: usize = 0;
    let owned_names: Option<Vec<Vec<u8>>> = match headers {
        CsvHeaders::FirstRow => {
            if lines.len() == 0 {
                let e: Vec<Value> = Vec::new();
                proof {
                    lemma_views_of(e@);
                    assert(views_of(e@) =~= Seq::<ValV>::empty());
                }
                return Ok(e);
            }
            match csv_fields(&lines[0], delim, quote) {
                Some(h) => {
                    start = 1;
                    Some(h)
                },
                None => {
                    return Err(
                        TestError::Other(String::from_str("reading file: a bad CSV header row")),
                    );
                },
            }
        },
        CsvHeaders::Given(h) => Some(h.clone()),
        CsvHeaders::Positional => None,
    };
    let ghost hdrs_v: Option<Seq<Seq<u8>>> = match &owned_names {
        Some(names) => Some(byte_views(names@)),
        None => None,
    };
    proof {
        match headers {
            CsvHeaders::Given(g) => {
                match &owned_names {
                    Some(names) => {
                        lemma_byte_views(g@);
                        lemma_byte_views(names@);
                        assert(byte_views(names@) =~~= byte_views(g@));
                    },
                    None => {
                    },
                }
            },
            _ => {
            },
        }
    }
    let ghost data_lines = line_seqs.skip(start as int);
    proof {
        match headers {
            CsvHeaders::FirstRow => {
                assert(line_seqs.skip(1) =~~= spec_lines(content@).drop_first());
                assert(spec_csv_values(content@, *headers, delim, quote) == spec_csv_rows(
                    data_lines,
                    hdrs_v,
                    delim,
                    quote,
                ));
            },
            CsvHeaders::Given(_) => {
                assert(line_seqs.skip(0) =~~= spec_lines(content@));
                assert(spec_csv_values(content@, *headers, delim, quote) == spec_csv_rows(
                    data_lines,
                    hdrs_v,
                    delim,
                    quote,
                ));
            },
            CsvHeaders::Positional => {
                assert(line_seqs.skip(0) =~~= spec_lines(content@));
                assert(spec_csv_values(content@, *headers, delim, quote) == spec_csv_rows(
                    data_lines,
                    hdrs_v,
                    delim,
                    quote,
                ));
            },
        }
    }
    let mut out: Vec<Value> = Vec::new();
    proof {
        assert(data_lines.skip(0) =~~= data_lines);
        match spec_csv_rows(data_lines, hdrs_v, delim, quote) {
            Some(rest) => {
                assert(views_of(out@) + rest =~= rest);
            },
            None => {
            },
        }
    }
    let mut k: usize = start;
    while k < lines.len()
        invariant
            start <= k <= lines@.len(),
            match spec_csv_rows(line_seqs.skip(k as int), hdrs_v, delim, quote) {
                Some(rest) => spec_csv_rows(data_lines, hdrs_v, delim, quote) == Some(
                    views_of(out@) + rest,
                ),
                None => spec_csv_rows(data_lines, hdrs_v, delim, quote) is None,
            },
        decreases lines@.len() - k,
    {
        proof {
            lemma_byte_views(lines@);
            assert(line_seqs.skip(k as int)[0] == line_seqs[k as int]);
            assert(line_seqs.skip(k as int).drop_first() =~~= line_seqs.skip(k + 1));
        }
        match csv_fields(&lines[k], delim, quote) {
            Some(cells) => {
                let names_ref = match &owned_names {
                    Some(names) => Some(names),
                    None => None,
                };
                let row = row_value(names_ref, cells);
                let ghost pre_out = out@;
                out.push(row);
                proof {
                    lemma_views_of(out@);
                    lemma_views_of(pre_out);
                    assert(views_of(out@) =~= views_of(pre_out).push(out@.last()@));
                    match spec_csv_rows(line_seqs.skip(k + 1), hdrs_v, delim, quote) {
                        Some(rest) => {
                            assert(spec_csv_rows(line_seqs.skip(k as int), hdrs_v, delim, quote)
                                == Some(seq![out@.last()@] + rest));
                            assert(views_of(out@) + rest =~= views_of(pre_out) + (
                            seq![out@.last()@] + rest));
                        },
                        None => {
                        },
                    }
                }
            },
            None => {
                proof {
                    assert(spec_csv_rows(line_seqs.skip(k as int), hdrs_v, delim, quote) is None);
                }
                return Err(TestError::Other(String::from_str("reading file: a bad CSV row")));
            },
        }
        k += 1;
    }
    proof {
        assert(line_seqs.skip(line_seqs.len() as int).len() == 0);
        assert(spec_csv_rows(line_seqs.skip(line_seqs.len() as int), hdrs_v, delim, quote) == Some(
            Seq::<ValV>::empty(),
        ));
        assert(views_of(out@) + Seq::<ValV>::empty() =~= views_of(out@));
        assert(line_seqs.skip(0) =~~= line_seqs);
    }
    Ok(out)
}

} // verus!
