//! The universal inter-component datum: a JSON value.
//!
//! Text is carried as UTF-8 bytes so that serialisation is a plain
//! function on byte sequences. Numbers are signed 64-bit integers:
//! the engine's providers and captures traffic in counters, ids and
//! labels, and anything else is carried as text.

use vstd::prelude::*;

verus! {

/// A JSON value: `null`, a boolean, an integer, text (UTF-8 bytes),
/// an array, or an object of key/value pairs in insertion order.
#[derive(Debug, PartialEq)]
pub enum Value {
    Null,
    Bool(bool),
    Int(i64),
    Str(Vec<u8>),
    Array(Vec<Value>),
    Object(Vec<(Vec<u8>, Value)>),
}

/// The mathematical shape of a JSON value, used by every contract.
#[verifier::ext_equal]
pub enum ValV {
    Null,
    Bool(bool),
    Int(int),
    Str(Seq<u8>),
    Arr(Seq<ValV>),
    Obj(Seq<(Seq<u8>, ValV)>),
}

/// The mathematical value that `v` holds.
pub open spec fn view_of(v: Value) -> ValV
    decreases v,
{
    match v {
        Value::Null => ValV::Null,
        Value::Bool(b) => ValV::Bool(b),
        Value::Int(n) => ValV::Int(n as int),
        Value::Str(s) => ValV::Str(s@),
        Value::Array(items) => ValV::Arr(views_of(items@)),
        Value::Object(pairs) => ValV::Obj(pair_views_of(pairs@)),
    }
}

/// The mathematical values that a sequence of values holds.
pub open spec fn views_of(s: Seq<Value>) -> Seq<ValV>
    decreases s,
{
    if s.len() == 0 {
        Seq::empty()
    } else {
        views_of(s.drop_last()).push(view_of(s.last()))
    }
}

/// The mathematical values that a sequence of key/value pairs holds.
pub open spec fn pair_views_of(s: Seq<(Vec<u8>, Value)>) -> Seq<(Seq<u8>, ValV)>
    decreases s,
{
    if s.len() == 0 {
        Seq::empty()
    } else {
        pair_views_of(s.drop_last()).push((s.last().0@, view_of(s.last().1)))
    }
}

pub broadcast proof fn lemma_views_of(s: Seq<Value>)
    ensures
        (#[trigger] views_of(s)).len() == s.len(),
        forall|i: int| 0 <= i < s.len() ==> views_of(s)[i] == view_of(s[i]),
    decreases s.len(),
{
    if s.len() > 0 {
        lemma_views_of(s.drop_last());
    }
}

pub broadcast proof fn lemma_pair_views_of(s: Seq<(Vec<u8>, Value)>)
    ensures
        (#[trigger] pair_views_of(s)).len() == s.len(),
        forall|i: int|
            0 <= i < s.len() ==> pair_views_of(s)[i] == (s[i].0@, view_of(s[i].1)),
    decreases s.len(),
{
    if s.len() > 0 {
        lemma_pair_views_of(s.drop_last());
    }
}

impl View for Value {
    type V = ValV;

    open spec fn view(&self) -> ValV {
        view_of(*self)
    }
}

impl Value {
    /// Whether this value is text.
    pub fn is_string(&self) -> (r: bool)
        ensures
            r == (self@ is Str),
    {
        match self {
            Value::Str(_) => true,
            _ => false,
        }
    }

    /// A structural copy of this value.
    #[verifier::loop_isolation(false)]
    pub fn dup(&self) -> (r: Value)
        ensures
            r@ == self@,
        decreases *self,
    {
        match self {
            Value::Null => Value::Null,
            Value::Bool(b) => Value::Bool(*b),
            Value::Int(n) => Value::Int(*n),
            Value::Str(s) => Value::Str(s.clone()),
            Value::Array(items) => {
                let mut out: Vec<Value> = Vec::new();
                let mut i: usize = 0;
                while i < items.len()
                    invariant
                        i <= items.len(),
                        views_of(out@) =~= views_of(items@).subrange(0, i as int),
                    decreases items.len() - i,
                {
                    proof {
                        assert(decreases_to!(*self => self->Array_0));
                        assert(self->Array_0 == *items);
                        assert(decreases_to!(*items => items@));
                        assert(decreases_to!(items@ => items@[i as int]));
                        lemma_views_of(out@);
                        lemma_views_of(items@);
                    }
                    let dv = items[i].dup();
                    out.push(dv);
                    proof {
                        lemma_views_of(out@.drop_last().push(dv));
                        assert(views_of(out@) =~= views_of(items@).subrange(0, i + 1)) by {
                            lemma_views_of(out@);
                            lemma_views_of(items@);
                        }
                    }
                    i += 1;
                }
                proof {
                    lemma_views_of(out@);
                    lemma_views_of(items@);
                    assert(views_of(out@) =~= views_of(items@));
                }
                Value::Array(out)
            },
            Value::Object(pairs) => {
                let mut out: Vec<(Vec<u8>, Value)> = Vec::new();
                let mut i: usize = 0;
                while i < pairs.len()
                    invariant
                        i <= pairs.len(),
                        pair_views_of(out@) =~= pair_views_of(pairs@).subrange(0, i as int),
                    decreases pairs.len() - i,
                {
                    proof {
                        assert(decreases_to!(*self => self->Object_0));
                        assert(self->Object_0 == *pairs);
                        assert(decreases_to!(*pairs => pairs@));
                        assert(decreases_to!(pairs@ => pairs@[i as int]));
                        assert(decreases_to!(pairs@[i as int] => pairs@[i as int].1));
                        lemma_pair_views_of(out@);
                        lemma_pair_views_of(pairs@);
                    }
                    let key = pairs[i].0.clone();
                    let val = pairs[i].1.dup();
                    out.push((key, val));
                    proof {
                        lemma_pair_views_of(out@);
                        lemma_pair_views_of(pairs@);
                        assert(pair_views_of(out@) =~= pair_views_of(pairs@).subrange(0, i + 1));
                    }
                    i += 1;
                }
                proof {
                    lemma_pair_views_of(out@);
                    lemma_pair_views_of(pairs@);
                    assert(pair_views_of(out@) =~= pair_views_of(pairs@));
                }
                Value::Object(out)
            },
        }
    }
}

impl Clone for Value {
    /// Cloning keeps the mathematical value exactly.
    fn clone(&self) -> (r: Self)
        ensures
            r@ == self@,
    {
        self.dup()
    }
}

/// The decimal digits of `n`, most significant first.
pub closed spec fn spec_dec_digits(n: nat) -> Seq<u8>
    decreases n,
{
    if n < 10 {
        seq![(48 + n) as u8]
    } else {
        spec_dec_digits(n / 10) + seq![(48 + n % 10) as u8]
    }
}

/// The serialised form of the integer `n`: a minus sign when negative,
/// then the decimal digits of its magnitude.
pub open spec fn spec_int_bytes(n: int) -> Seq<u8> {
    if n < 0 {
        seq![45u8] + spec_dec_digits((-n) as nat)
    } else {
        spec_dec_digits(n as nat)
    }
}

/// One lower-case hexadecimal digit.
pub open spec fn spec_hex_digit(n: nat) -> u8 {
    if n < 10 {
        (48 + n) as u8
    } else {
        (97 + (n - 10)) as u8
    }
}

/// The escaped form of one byte of text inside a JSON string:
/// quotes and backslashes get a backslash, control bytes get their
/// short escape or a `\u00..` escape, and all else passes through.
pub open spec fn spec_escape_byte(b: u8) -> Seq<u8> {
    if b == 34 {
        seq![92u8, 34u8]
    } else if b == 92 {
        seq![92u8, 92u8]
    } else if b == 8 {
        seq![92u8, 98u8]
    } else if b == 12 {
        seq![92u8, 102u8]
    } else if b == 10 {
        seq![92u8, 110u8]
    } else if b == 13 {
        seq![92u8, 114u8]
    } else if b == 9 {
        seq![92u8, 116u8]
    } else if b < 32 {
        seq![92u8, 117u8, 48u8, 48u8, spec_hex_digit((b / 16) as nat), spec_hex_digit(
            (b % 16) as nat,
        )]
    } else {
        seq![b]
    }
}

/// The escaped form of a whole text.
pub closed spec fn spec_escape(s: Seq<u8>) -> Seq<u8>
    decreases s.len(),
{
    if s.len() == 0 {
        Seq::empty()
    } else {
        spec_escape(s.drop_last()) + spec_escape_byte(s.last())
    }
}

/// A text serialised as a JSON string: quoted and escaped.
pub open spec fn spec_string_bytes(s: Seq<u8>) -> Seq<u8> {
    seq![34u8] + spec_escape(s) + seq![34u8]
}

/// The compact JSON serialisation of `v`, as serde_json writes it:
/// no spaces, object members in stored order.
pub closed spec fn spec_json_bytes(v: ValV) -> Seq<u8>
    decreases v,
{
    match v {
        ValV::Null => seq![110u8, 117u8, 108u8, 108u8],
        ValV::Bool(b) => if b {
            seq![116u8, 114u8, 117u8, 101u8]
        } else {
            seq![102u8, 97u8, 108u8, 115u8, 101u8]
        },
        ValV::Int(n) => spec_int_bytes(n),
        ValV::Str(s) => spec_string_bytes(s),
        ValV::Arr(items) => seq![91u8] + spec_array_items(items) + seq![93u8],
        ValV::Obj(pairs) => seq![123u8] + spec_object_items(pairs) + seq![125u8],
    }
}

/// The comma-separated serialisations of array elements.
pub closed spec fn spec_array_items(items: Seq<ValV>) -> Seq<u8>
    decreases items,
{
    if items.len() == 0 {
        Seq::empty()
    } else if items.len() == 1 {
        spec_json_bytes(items[0])
    } else {
        spec_array_items(items.drop_last()) + seq![44u8] + spec_json_bytes(items.last())
    }
}

/// The comma-separated `"key":value` serialisations of object members.
pub closed spec fn spec_object_items(pairs: Seq<(Seq<u8>, ValV)>) -> Seq<u8>
    decreases pairs,
{
    if pairs.len() == 0 {
        Seq::empty()
    } else if pairs.len() == 1 {
        spec_string_bytes(pairs[0].0) + seq![58u8] + spec_json_bytes(pairs[0].1)
    } else {
        spec_object_items(pairs.drop_last()) + seq![44u8] + spec_string_bytes(pairs.last().0)
            + seq![58u8] + spec_json_bytes(pairs.last().1)
    }
}

/// Appends the decimal digits of `n` to `out`.
pub(crate) fn push_dec_digits(out: &mut Vec<u8>, n: u64)
    ensures
        final(out)@ == old(out)@ + spec_dec_digits(n as nat),
    decreases n,
{
    if n >= 10 {
        push_dec_digits(out, n / 10);
    }
    out.push(48 + (n % 10) as u8);
}

/// Appends the serialised form of the integer `n` to `out`.
fn push_int_bytes(out: &mut Vec<u8>, n: i64)
    ensures
        final(out)@ == old(out)@ + spec_int_bytes(n as int),
{
    if n < 0 {
        out.push(45);
        let mag: u64 = if n == i64::MIN {
            9223372036854775808u64
        } else {
            (-n) as u64
        };
        assert(mag == -(n as int));
        push_dec_digits(out, mag);
        assert(out@ =~= old(out)@ + spec_int_bytes(n as int));
    } else {
        push_dec_digits(out, n as u64);
    }
}

fn hex_digit(n: u8) -> (r: u8)
    requires
        n < 16,
    ensures
        r == spec_hex_digit(n as nat),
{
    if n < 10 {
        48 + n
    } else {
        97 + (n - 10)
    }
}

/// Appends the quoted, escaped JSON string form of `s` to `out`.
fn push_string_bytes(out: &mut Vec<u8>, s: &Vec<u8>)
    ensures
        final(out)@ == old(out)@ + spec_string_bytes(s@),
{
    out.push(34);
    let mut i: usize = 0;
    while i < s.len()
        invariant
            i <= s.len(),
            out@ == old(out)@ + seq![34u8] + spec_escape(s@.subrange(0, i as int)),
        decreases s.len() - i,
    {
        let b = s[i];
        if b == 34 {
            out.push(92);
            out.push(34);
        } else if b == 92 {
            out.push(92);
            out.push(92);
        } else if b == 8 {
            out.push(92);
            out.push(98);
        } else if b == 12 {
            out.push(92);
            out.push(102);
        } else if b == 10 {
            out.push(92);
            out.push(110);
        } else if b == 13 {
            out.push(92);
            out.push(114);
        } else if b == 9 {
            out.push(92);
            out.push(116);
        } else if b < 32 {
            out.push(92);
            out.push(117);
            out.push(48);
            out.push(48);
            out.push(hex_digit(b / 16));
            out.push(hex_digit(b % 16));
        } else {
            out.push(b);
        }
        proof {
            let pre = s@.subrange(0, i + 1);
            assert(pre.drop_last() =~= s@.subrange(0, i as int));
            assert(pre.last() == b);
            assert(out@ =~= old(out)@ + seq![34u8] + spec_escape(pre));
        }
        i += 1;
    }
    proof {
        assert(s@.subrange(0, s@.len() as int) =~= s@);
    }
    out.push(34);
    proof {
        assert(out@ =~= old(out)@ + spec_string_bytes(s@));
    }
}

/// Appends the compact JSON serialisation of `v` to `out`.
#[verifier::loop_isolation(false)]
pub fn push_json_bytes(out: &mut Vec<u8>, v: &Value)
    ensures
        final(out)@ == old(out)@ + spec_json_bytes(v@),
    decreases *v,
{
    match v {
        Value::Null => {
            out.push(110);
            out.push(117);
            out.push(108);
            out.push(108);
            proof {
                assert(out@ =~= old(out)@ + spec_json_bytes(v@));
            }
        },
        Value::Bool(b) => {
            if *b {
                out.push(116);
                out.push(114);
                out.push(117);
                out.push(101);
            } else {
                out.push(102);
                out.push(97);
                out.push(108);
                out.push(115);
                out.push(101);
            }
            proof {
                assert(out@ =~= old(out)@ + spec_json_bytes(v@));
            }
        },
        Value::Int(n) => {
            push_int_bytes(out, *n);
        },
        Value::Str(s) => {
            push_string_bytes(out, s);
        },
        Value::Array(items) => {
            out.push(91);
            let mut i: usize = 0;
            while i < items.len()
                invariant
                    i <= items.len(),
                    out@ == old(out)@ + seq![91u8] + spec_array_items(
                        views_of(items@).subrange(0, i as int),
                    ),
                decreases items.len() - i,
            {
                if i > 0 {
                    out.push(44);
                }
                proof {
                    assert(decreases_to!(*v => v->Array_0));
                    assert(v->Array_0 == *items);
                    assert(decreases_to!(*items => items@));
                    assert(decreases_to!(items@ => items@[i as int]));
                    lemma_views_of(items@);
                }
                push_json_bytes(out, &items[i]);
                proof {
                    lemma_views_of(items@);
                    let vs = views_of(items@);
                    let pre = vs.subrange(0, i + 1);
                    assert(pre.drop_last() =~= vs.subrange(0, i as int));
                    assert(pre.last() == view_of(items@[i as int]));
                    assert(out@ =~= old(out)@ + seq![91u8] + spec_array_items(pre));
                }
                i += 1;
            }
            proof {
                lemma_views_of(items@);
                assert(views_of(items@).subrange(0, views_of(items@).len() as int) =~= views_of(
                    items@,
                ));
            }
            out.push(93);
            proof {
                assert(out@ =~= old(out)@ + spec_json_bytes(v@));
            }
        },
        Value::Object(pairs) => {
            out.push(123);
            let mut i: usize = 0;
            while i < pairs.len()
                invariant
                    i <= pairs.len(),
                    out@ == old(out)@ + seq![123u8] + spec_object_items(
                        pair_views_of(pairs@).subrange(0, i as int),
                    ),
                decreases pairs.len() - i,
            {
                if i > 0 {
                    out.push(44);
                }
                push_string_bytes(out, &pairs[i].0);
                out.push(58);
                proof {
                    assert(decreases_to!(*v => v->Object_0));
                    assert(v->Object_0 == *pairs);
                    assert(decreases_to!(*pairs => pairs@));
                    assert(decreases_to!(pairs@ => pairs@[i as int]));
                    assert(decreases_to!(pairs@[i as int] => pairs@[i as int].1));
                    lemma_pair_views_of(pairs@);
                }
                push_json_bytes(out, &pairs[i].1);
                proof {
                    lemma_pair_views_of(pairs@);
                    let vs = pair_views_of(pairs@);
                    let pre = vs.subrange(0, i + 1);
                    assert(pre.drop_last() =~= vs.subrange(0, i as int));
                    assert(pre.last() == (pairs@[i as int].0@, view_of(pairs@[i as int].1)));
                    assert(out@ =~= old(out)@ + seq![123u8] + spec_object_items(pre));
                }
                i += 1;
            }
            proof {
                lemma_pair_views_of(pairs@);
                assert(pair_views_of(pairs@).subrange(
                    0,
                    pair_views_of(pairs@).len() as int,
                ) =~= pair_views_of(pairs@));
            }
            out.push(125);
            proof {
                assert(out@ =~= old(out)@ + spec_json_bytes(v@));
            }
        },
    }
}

/// The compact JSON serialisation of `v`.
pub fn json_bytes(v: &Value) -> (r: Vec<u8>)
    ensures
        r@ == spec_json_bytes(v@),
{
    let mut out: Vec<u8> = Vec::new();
    push_json_bytes(&mut out, v);
    out
}

/// What the value reads as when handed to a text sink: text keeps its
/// bytes unquoted, everything else is serialised as JSON.
pub open spec fn spec_value_text(v: ValV) -> Seq<u8> {
    match v {
        ValV::Str(s) => s,
        _ => spec_json_bytes(v),
    }
}

/// The text form of a value: a `Str` gives its bytes back unquoted,
/// any other value its compact JSON serialisation.
pub fn json_value_to_bytes(v: &Value) -> (r: Vec<u8>)
    ensures
        r@ == spec_value_text(v@),
{
    match v {
        Value::Str(s) => s.clone(),
        _ => json_bytes(v),
    }
}


/// Two spaces of indentation per nesting level.
pub closed spec fn spec_indent(n: nat) -> Seq<u8>
    decreases n,
{
    if n == 0 {
        Seq::empty()
    } else {
        spec_indent((n - 1) as nat) + seq![32u8, 32u8]
    }
}

/// The next nesting level. Indentation stops deepening at a floor no
/// real document reaches (serialising such nesting would long have
/// exhausted the stack).
pub open spec fn spec_next_indent(n: nat) -> nat {
    if n < 0xFFFF {
        n + 1
    } else {
        n
    }
}

/// The multi-line indented JSON serialisation of `v` at nesting
/// level `ind`: two-space indents, one element per line, `[]`/`{}`
/// for empty containers, and `"key": value` members.
pub closed spec fn spec_pretty_bytes(v: ValV, ind: nat) -> Seq<u8>
    decreases v,
{
    match v {
        ValV::Null => seq![110u8, 117u8, 108u8, 108u8],
        ValV::Bool(b) => if b {
            seq![116u8, 114u8, 117u8, 101u8]
        } else {
            seq![102u8, 97u8, 108u8, 115u8, 101u8]
        },
        ValV::Int(n) => spec_int_bytes(n),
        ValV::Str(s) => spec_string_bytes(s),
        ValV::Arr(items) => if items.len() == 0 {
            seq![91u8, 93u8]
        } else {
            seq![91u8, 10u8] + spec_pretty_items(items, spec_next_indent(ind)) + seq![10u8]
                + spec_indent(ind) + seq![93u8]
        },
        ValV::Obj(pairs) => if pairs.len() == 0 {
            seq![123u8, 125u8]
        } else {
            seq![123u8, 10u8] + spec_pretty_members(pairs, spec_next_indent(ind)) + seq![10u8]
                + spec_indent(ind) + seq![125u8]
        },
    }
}

/// The indented, comma-and-newline-separated element lines.
pub closed spec fn spec_pretty_items(items: Seq<ValV>, ind: nat) -> Seq<u8>
    decreases items,
{
    if items.len() == 0 {
        Seq::empty()
    } else if items.len() == 1 {
        spec_indent(ind) + spec_pretty_bytes(items[0], ind)
    } else {
        spec_pretty_items(items.drop_last(), ind) + seq![44u8, 10u8] + spec_indent(ind)
            + spec_pretty_bytes(items.last(), ind)
    }
}

/// The indented `"key": value` member lines.
pub closed spec fn spec_pretty_members(pairs: Seq<(Seq<u8>, ValV)>, ind: nat) -> Seq<u8>
    decreases pairs,
{
    if pairs.len() == 0 {
        Seq::empty()
    } else if pairs.len() == 1 {
        spec_indent(ind) + spec_string_bytes(pairs[0].0) + seq![58u8, 32u8] + spec_pretty_bytes(
            pairs[0].1,
            ind,
        )
    } else {
        spec_pretty_members(pairs.drop_last(), ind) + seq![44u8, 10u8] + spec_indent(ind)
            + spec_string_bytes(pairs.last().0) + seq![58u8, 32u8] + spec_pretty_bytes(
            pairs.last().1,
            ind,
        )
    }
}

/// Appends `n` levels of indentation.
#[verifier::loop_isolation(false)]
fn push_indent(out: &mut Vec<u8>, n: u32)
    ensures
        final(out)@ == old(out)@ + spec_indent(n as nat),
{
    let mut t: u32 = 0;
    while t < n
        invariant
            t <= n,
            out@ == old(out)@ + spec_indent(t as nat),
        decreases n - t,
    {
        out.push(32);
        out.push(32);
        proof {
            assert(out@ =~= old(out)@ + spec_indent((t + 1) as nat));
        }
        t += 1;
    }
}

/// Appends the multi-line indented JSON serialisation of `v`.
#[verifier::loop_isolation(false)]
pub fn push_pretty_bytes(out: &mut Vec<u8>, v: &Value, ind: u32)
    ensures
        final(out)@ == old(out)@ + spec_pretty_bytes(v@, ind as nat),
    decreases *v,
{
    match v {
        Value::Null => {
            out.push(110);
            out.push(117);
            out.push(108);
            out.push(108);
            proof {
                assert(out@ =~= old(out)@ + spec_pretty_bytes(v@, ind as nat));
            }
        },
        Value::Bool(b) => {
            if *b {
                out.push(116);
                out.push(114);
                out.push(117);
                out.push(101);
            } else {
                out.push(102);
                out.push(97);
                out.push(108);
                out.push(115);
                out.push(101);
            }
            proof {
                assert(out@ =~= old(out)@ + spec_pretty_bytes(v@, ind as nat));
            }
        },
        Value::Int(n) => {
            push_int_bytes(out, *n);
        },
        Value::Str(s) => {
            push_string_bytes(out, s);
        },
        Value::Array(items) => {
            proof {
                assert(*v == Value::Array(*items));
                assert(decreases_to!(*v => v->Array_0));
                assert(v->Array_0 == *items);
                assert(decreases_to!(*items => items@));
            }
            if items.len() == 0 {
                out.push(91);
                out.push(93);
                proof {
                    assert(out@ =~= old(out)@ + spec_pretty_bytes(v@, ind as nat));
                }
            } else {
                push_pretty_array(out, items, ind);
                proof {
                    assert(out@ =~= old(out)@ + spec_pretty_bytes(v@, ind as nat));
                }
            }
        },
        Value::Object(pairs) => {
            proof {
                assert(*v == Value::Object(*pairs));
                assert(decreases_to!(*v => v->Object_0));
                assert(v->Object_0 == *pairs);
                assert(decreases_to!(*pairs => pairs@));
            }
            if pairs.len() == 0 {
                out.push(123);
                out.push(125);
                proof {
                    assert(out@ =~= old(out)@ + spec_pretty_bytes(v@, ind as nat));
                }
            } else {
                push_pretty_object(out, pairs, ind);
                proof {
                    assert(out@ =~= old(out)@ + spec_pretty_bytes(v@, ind as nat));
                }
            }
        },
    }
}

/// Appends a non-empty array's multi-line form.
#[verifier::loop_isolation(false)]
#[verifier::rlimit(60)]
fn push_pretty_array(out: &mut Vec<u8>, items: &Vec<Value>, ind: u32)
    requires
        items@.len() > 0,
    ensures
        final(out)@ == old(out)@ + seq![91u8, 10u8] + spec_pretty_items(
            views_of(items@),
            spec_next_indent(ind as nat),
        ) + seq![10u8] + spec_indent(ind as nat) + seq![93u8],
    decreases items@,
{
    let ind2: u32 = if ind < 0xFFFF {
        ind + 1
    } else {
        ind
    };
    proof {
        assert(ind2 as nat == spec_next_indent(ind as nat));
    }
    out.push(91);
    out.push(10);
    let mut i: usize = 0;
    while i < items.len()
        invariant
            i <= items.len(),
            out@ == old(out)@ + seq![91u8, 10u8] + spec_pretty_items(
                views_of(items@).subrange(0, i as int),
                ind2 as nat,
            ),
        decreases items.len() - i,
    {
        if i > 0 {
            out.push(44);
            out.push(10);
        }
        push_indent(out, ind2);
        proof {
            assert(decreases_to!(items@ => items@[i as int]));
            lemma_views_of(items@);
        }
        push_pretty_bytes(out, &items[i], ind2);
        proof {
            lemma_views_of(items@);
            let vs = views_of(items@);
            let pre = vs.subrange(0, i + 1);
            assert(pre.drop_last() =~= vs.subrange(0, i as int));
            assert(pre.last() == view_of(items@[i as int]));
            assert(out@ =~= old(out)@ + seq![91u8, 10u8] + spec_pretty_items(pre, ind2 as nat));
        }
        i += 1;
    }
    proof {
        lemma_views_of(items@);
        assert(views_of(items@).subrange(0, views_of(items@).len() as int) =~= views_of(items@));
    }
    out.push(10);
    push_indent(out, ind);
    out.push(93);
    proof {
        assert(out@ =~= old(out)@ + seq![91u8, 10u8] + spec_pretty_items(
            views_of(items@),
            spec_next_indent(ind as nat),
        ) + seq![10u8] + spec_indent(ind as nat) + seq![93u8]);
    }
}

/// Appends a non-empty object's multi-line form.
#[verifier::loop_isolation(false)]
#[verifier::rlimit(60)]
fn push_pretty_object(out: &mut Vec<u8>, pairs: &Vec<(Vec<u8>, Value)>, ind: u32)
    requires
        pairs@.len() > 0,
    ensures
        final(out)@ == old(out)@ + seq![123u8, 10u8] + spec_pretty_members(
            pair_views_of(pairs@),
            spec_next_indent(ind as nat),
        ) + seq![10u8] + spec_indent(ind as nat) + seq![125u8],
    decreases pairs@,
{
    let ind2: u32 = if ind < 0xFFFF {
        ind + 1
    } else {
        ind
    };
    proof {
        assert(ind2 as nat == spec_next_indent(ind as nat));
    }
    out.push(123);
    out.push(10);
    let mut i: usize = 0;
    while i < pairs.len()
        invariant
            i <= pairs.len(),
            out@ == old(out)@ + seq![123u8, 10u8] + spec_pretty_members(
                pair_views_of(pairs@).subrange(0, i as int),
                ind2 as nat,
            ),
        decreases pairs.len() - i,
    {
        if i > 0 {
            out.push(44);
            out.push(10);
        }
        push_indent(out, ind2);
        push_string_bytes(out, &pairs[i].0);
        out.push(58);
        out.push(32);
        proof {
            assert(decreases_to!(pairs@ => pairs@[i as int]));
            assert(decreases_to!(pairs@[i as int] => pairs@[i as int].1));
            lemma_pair_views_of(pairs@);
        }
        push_pretty_bytes(out, &pairs[i].1, ind2);
        proof {
            lemma_pair_views_of(pairs@);
            let vs = pair_views_of(pairs@);
            let pre = vs.subrange(0, i + 1);
            assert(pre.drop_last() =~= vs.subrange(0, i as int));
            assert(pre.last() == (pairs@[i as int].0@, view_of(pairs@[i as int].1)));
            assert(out@ =~= old(out)@ + seq![123u8, 10u8] + spec_pretty_members(pre, ind2 as nat));
        }
        i += 1;
    }
    proof {
        lemma_pair_views_of(pairs@);
        assert(pair_views_of(pairs@).subrange(0, pair_views_of(pairs@).len() as int)
            =~= pair_views_of(pairs@));
    }
    out.push(10);
    push_indent(out, ind);
    out.push(125);
    proof {
        assert(out@ =~= old(out)@ + seq![123u8, 10u8] + spec_pretty_members(
            pair_views_of(pairs@),
            spec_next_indent(ind as nat),
        ) + seq![10u8] + spec_indent(ind as nat) + seq![125u8]);
    }
}

/// The multi-line indented JSON serialisation of `v`.
pub fn json_pretty_bytes(v: &Value) -> (r: Vec<u8>)
    ensures
        r@ == spec_pretty_bytes(v@, 0),
{
    let mut out: Vec<u8> = Vec::new();
    push_pretty_bytes(&mut out, v, 0);
    out
}

/// The pretty form of a value, as a string: multi-line indented
/// JSON. Text that is not valid UTF-8 is replaced character by
/// character.
pub fn json_value_to_pretty_string(v: &Value) -> (r: String)
    ensures
        vstd::utf8::valid_utf8(spec_pretty_bytes(v@, 0)) ==> vstd::utf8::encode_utf8(r@)
            == spec_pretty_bytes(v@, 0),
{
    bytes_to_string_lossy(json_pretty_bytes(v))
}

/// Relies on String::from_utf8_lossy: valid UTF-8 bytes come back as
/// the same text; invalid sequences become replacement characters.
#[verifier::external_body]
fn bytes_to_string_lossy(b: Vec<u8>) -> (r: String)
    ensures
        vstd::utf8::valid_utf8(b@) ==> vstd::utf8::encode_utf8(r@) == b@,
{
    String::from_utf8_lossy(&b).into_owned()
}

/// The text form of a value, as a string: a `Str` unquoted, all else
/// compact JSON. Text that is not valid UTF-8 is replaced character
/// by character.
pub fn json_value_to_string(v: &Value) -> (r: String)
    ensures
        vstd::utf8::valid_utf8(spec_value_text(v@)) ==> vstd::utf8::encode_utf8(r@)
            == spec_value_text(v@),
{
    bytes_to_string_lossy(json_value_to_bytes(v))
}

/// As `json_value_to_string`, consuming the value.
pub fn json_value_into_string(v: Value) -> (r: String)
    ensures
        vstd::utf8::valid_utf8(spec_value_text(v@)) ==> vstd::utf8::encode_utf8(r@)
            == spec_value_text(v@),
{
    match v {
        Value::Str(s) => bytes_to_string_lossy(s),
        other => bytes_to_string_lossy(json_bytes(&other)),
    }
}

} // verus!
