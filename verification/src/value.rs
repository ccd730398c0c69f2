//! Runtime values, their rendered text, and the variable store that
//! template evaluation reads.

use vstd::prelude::*;
use vstd::string::StringExecFns;

use crate::strutil::push_char;

verus! {

/// A typed runtime value. A float is kept as its integer part and its
/// fractional digits, exactly as written, so rendering loses nothing.
#[derive(Debug, PartialEq)]
pub enum Value {
    Integer(i64),
    Float(i64, String),
    Bool(bool),
    String(String),
    List(Vec<Value>),
    Object(Vec<(String, Value)>),
    Bytes(Vec<u8>),
    Null,
    Unit,
    Nodeset(usize),
}

/// The decimal digit for `n` (0 to 9).
pub open spec fn digit_char(n: nat) -> char {
    if n == 0 {
        '0'
    } else if n == 1 {
        '1'
    } else if n == 2 {
        '2'
    } else if n == 3 {
        '3'
    } else if n == 4 {
        '4'
    } else if n == 5 {
        '5'
    } else if n == 6 {
        '6'
    } else if n == 7 {
        '7'
    } else if n == 8 {
        '8'
    } else {
        '9'
    }
}

/// The decimal digits of `n`, most significant first, no leading zeros
/// (a single `0` for zero).
pub open spec fn dec_digits(n: nat) -> Seq<char>
    decreases n,
{
    if n < 10 {
        seq![digit_char(n)]
    } else {
        dec_digits(n / 10).push(digit_char(n % 10))
    }
}

/// The decimal text of an integer, with a leading minus when negative.
pub open spec fn int_text(i: int) -> Seq<char> {
    if i < 0 {
        seq!['-'] + dec_digits((-i) as nat)
    } else {
        dec_digits(i as nat)
    }
}

/// The rendered text of a value: integers in decimal, booleans as
/// `true`/`false`, floats as integer part, dot, fractional digits,
/// strings verbatim, lists and objects with their members rendered in
/// order between brackets.
pub open spec fn render(v: Value) -> Seq<char>
    decreases v,
{
    match v {
        Value::Integer(i) => int_text(i as int),
        Value::Float(i, frac) => int_text(i as int) + seq!['.'] + frac@,
        Value::Bool(b) => if b {
            seq!['t', 'r', 'u', 'e']
        } else {
            seq!['f', 'a', 'l', 's', 'e']
        },
        Value::String(s) => s@,
        Value::List(vs) => seq!['['] + render_list(vs@, 0) + seq![']'],
        Value::Object(fs) => seq!['{'] + render_object(fs@, 0) + seq!['}'],
        Value::Bytes(bs) => seq!['b', 'y', 't', 'e', 's', '('] + dec_digits(bs@.len()) + seq![')'],
        Value::Null => seq!['n', 'u', 'l', 'l'],
        Value::Unit => seq!['u', 'n', 'i', 't'],
        Value::Nodeset(n) => seq!['n', 'o', 'd', 'e', 's', 'e', 't', '('] + dec_digits(n as nat)
            + seq![')'],
    }
}

/// The members of a list from index `i` on, comma-separated.
pub open spec fn render_list(vs: Seq<Value>, i: int) -> Seq<char>
    decreases vs, vs.len() - i,
{
    if i < 0 || i >= vs.len() {
        Seq::<char>::empty()
    } else if i == vs.len() - 1 {
        render(vs[i])
    } else {
        render(vs[i]) + seq![','] + render_list(vs, i + 1)
    }
}

/// The fields of an object from index `i` on: name, colon, value,
/// comma-separated.
pub open spec fn render_object(fs: Seq<(String, Value)>, i: int) -> Seq<char>
    decreases fs, fs.len() - i,
{
    if i < 0 || i >= fs.len() {
        Seq::<char>::empty()
    } else if i == fs.len() - 1 {
        fs[i].0@ + seq![':'] + render(fs[i].1)
    } else {
        fs[i].0@ + seq![':'] + render(fs[i].1) + seq![','] + render_object(fs, i + 1)
    }
}

/// A value is renderable into a template when it has a scalar text
/// form: integers, floats, booleans and strings.
pub open spec fn renderable(v: Value) -> bool {
    v is Integer || v is Float || v is Bool || v is String
}

/// The decimal digit character for `d`.
fn digit_char_exec(d: u64) -> (c: char)
    requires
        d < 10,
    ensures
        c == digit_char(d as nat),
{
    if d == 0 {
        '0'
    } else if d == 1 {
        '1'
    } else if d == 2 {
        '2'
    } else if d == 3 {
        '3'
    } else if d == 4 {
        '4'
    } else if d == 5 {
        '5'
    } else if d == 6 {
        '6'
    } else if d == 7 {
        '7'
    } else if d == 8 {
        '8'
    } else {
        '9'
    }
}

/// Append the decimal digits of `n`.
fn push_u64_dec(n: u64, out: &mut String)
    ensures
        final(out)@ == old(out)@ + dec_digits(n as nat),
    decreases n,
{
    if n < 10 {
        push_char(out, digit_char_exec(n));
        proof {
            assert(old(out)@ + seq![digit_char(n as nat)] =~= old(out)@.push(
                digit_char(n as nat),
            ));
        }
    } else {
        push_u64_dec(n / 10, out);
        push_char(out, digit_char_exec(n % 10));
        proof {
            assert((old(out)@ + dec_digits((n / 10) as nat)).push(digit_char((n % 10) as nat))
                =~= old(out)@ + dec_digits((n / 10) as nat).push(digit_char((n % 10) as nat)));
        }
    }
}

/// Append the decimal text of `i`.
fn push_i64_dec(i: i64, out: &mut String)
    ensures
        final(out)@ == old(out)@ + int_text(i as int),
{
    if i < 0 {
        push_char(out, '-');
        let m: u64 = (-(i as i128)) as u64;
        push_u64_dec(m, out);
        proof {
            assert(m as nat == (-(i as int)) as nat);
            assert(old(out)@.push('-') + dec_digits(m as nat) =~= old(out)@ + (seq!['-']
                + dec_digits(m as nat)));
        }
    } else {
        push_u64_dec(i as u64, out);
    }
}

/// Append the rendered text of `v`.
fn push_value(v: &Value, out: &mut String)
    ensures
        final(out)@ == old(out)@ + render(*v),
    decreases *v,
{
    match v {
        Value::Integer(i) => {
            push_i64_dec(*i, out);
        },
        Value::Float(i, frac) => {
            push_i64_dec(*i, out);
            push_char(out, '.');
            out.append(frac.as_str());
            proof {
                assert(((old(out)@ + int_text(*i as int)).push('.')) + frac@ =~= old(out)@ + (
                int_text(*i as int) + seq!['.'] + frac@));
            }
        },
        Value::Bool(b) => {
            if *b {
                out.append("true");
                proof {
                    reveal_strlit("true");
                    assert("true"@ =~= seq!['t', 'r', 'u', 'e']);
                }
            } else {
                out.append("false");
                proof {
                    reveal_strlit("false");
                    assert("false"@ =~= seq!['f', 'a', 'l', 's', 'e']);
                }
            }
        },
        Value::String(s) => {
            out.append(s.as_str());
        },
        Value::List(vs) => {
            push_char(out, '[');
            push_list(vs, 0, out);
            push_char(out, ']');
            proof {
                assert((old(out)@.push('[') + render_list(vs@, 0)).push(']') =~= old(out)@ + (
                seq!['['] + render_list(vs@, 0) + seq![']']));
            }
        },
        Value::Object(fs) => {
            push_char(out, '{');
            push_object(fs, 0, out);
            push_char(out, '}');
            proof {
                assert((old(out)@.push('{') + render_object(fs@, 0)).push('}') =~= old(out)@ + (
                seq!['{'] + render_object(fs@, 0) + seq!['}']));
            }
        },
        Value::Bytes(bs) => {
            out.append("bytes(");
            push_u64_dec(bs.len() as u64, out);
            push_char(out, ')');
            proof {
                reveal_strlit("bytes(");
                assert("bytes("@ =~= seq!['b', 'y', 't', 'e', 's', '(']);
                assert(((old(out)@ + "bytes("@) + dec_digits(bs@.len())).push(')') =~= old(out)@
                    + (seq!['b', 'y', 't', 'e', 's', '('] + dec_digits(bs@.len()) + seq![')']));
            }
        },
        Value::Null => {
            out.append("null");
            proof {
                reveal_strlit("null");
                assert("null"@ =~= seq!['n', 'u', 'l', 'l']);
            }
        },
        Value::Unit => {
            out.append("unit");
            proof {
                reveal_strlit("unit");
                assert("unit"@ =~= seq!['u', 'n', 'i', 't']);
            }
        },
        Value::Nodeset(n) => {
            out.append("nodeset(");
            push_u64_dec(*n as u64, out);
            push_char(out, ')');
            proof {
                reveal_strlit("nodeset(");
                assert("nodeset("@ =~= seq!['n', 'o', 'd', 'e', 's', 'e', 't', '(']);
                assert(((old(out)@ + "nodeset("@) + dec_digits(*n as nat)).push(')')
                    =~= old(out)@ + (seq!['n', 'o', 'd', 'e', 's', 'e', 't', '('] + dec_digits(
                    *n as nat,
                ) + seq![')']));
            }
        },
    }
}

/// Append the rendered members of a list from index `i` on.
fn push_list(vs: &Vec<Value>, i: usize, out: &mut String)
    requires
        i <= vs@.len(),
    ensures
        final(out)@ == old(out)@ + render_list(vs@, i as int),
    decreases vs@, vs@.len() - i,
{
    if i < vs.len() {
        push_value(&vs[i], out);
        if i + 1 < vs.len() {
            push_char(out, ',');
            push_list(vs, i + 1, out);
            proof {
                assert(((old(out)@ + render(vs@[i as int])).push(',')) + render_list(
                    vs@,
                    i as int + 1,
                ) =~= old(out)@ + (render(vs@[i as int]) + seq![','] + render_list(
                    vs@,
                    i as int + 1,
                )));
            }
        }
    } else {
        proof {
            assert(old(out)@ + Seq::<char>::empty() =~= old(out)@);
        }
    }
}

/// Append the rendered fields of an object from index `i` on.
fn push_object(fs: &Vec<(String, Value)>, i: usize, out: &mut String)
    requires
        i <= fs@.len(),
    ensures
        final(out)@ == old(out)@ + render_object(fs@, i as int),
    decreases fs@, fs@.len() - i,
{
    if i < fs.len() {
        let pair = &fs[i];
        out.append(pair.0.as_str());
        push_char(out, ':');
        push_value(&pair.1, out);
        if i + 1 < fs.len() {
            push_char(out, ',');
            push_object(fs, i + 1, out);
            proof {
                assert((((old(out)@ + fs@[i as int].0@).push(':') + render(fs@[i as int].1)).push(
                    ',',
                )) + render_object(fs@, i as int + 1) =~= old(out)@ + (fs@[i as int].0@
                    + seq![':'] + render(fs@[i as int].1) + seq![','] + render_object(
                    fs@,
                    i as int + 1,
                )));
            }
        } else {
            proof {
                assert((old(out)@ + fs@[i as int].0@).push(':') + render(fs@[i as int].1)
                    =~= old(out)@ + (fs@[i as int].0@ + seq![':'] + render(fs@[i as int].1)));
            }
        }
    } else {
        proof {
            assert(old(out)@ + Seq::<char>::empty() =~= old(out)@);
        }
    }
}

impl Value {
    /// The rendered text of this value.
    pub fn to_string(&self) -> (r: String)
        ensures
            r@ == render(*self),
    {
        let mut out = String::new();
        push_value(self, &mut out);
        proof {
            assert(Seq::<char>::empty() + render(*self) =~= render(*self));
        }
        out
    }
}

// ---------------------------------------------------------------------------
// The variable store.
// ---------------------------------------------------------------------------

/// The map an entry list stands for; a later binding of the same name
/// overrides an earlier one.
pub open spec fn map_of(es: Seq<(String, Value)>) -> Map<Seq<char>, Value>
    decreases es.len(),
{
    if es.len() == 0 {
        Map::<Seq<char>, Value>::empty()
    } else {
        map_of(es.drop_last()).insert(es.last().0@, es.last().1)
    }
}

/// A mapping from variable names to values, seeded by the caller and
/// extended by captures; a re-bound name takes the latest value.
#[derive(Debug)]
pub struct VariableSet {
    entries: Vec<(String, Value)>,
}

impl View for VariableSet {
    type V = Map<Seq<char>, Value>;

    closed spec fn view(&self) -> Map<Seq<char>, Value> {
        map_of(self.entries@)
    }
}

/// A binding found at `i`, with no later binding of the same name, is
/// what the map holds for that name.
proof fn lemma_map_of_get(es: Seq<(String, Value)>, name: Seq<char>, i: int)
    requires
        0 <= i < es.len(),
        es[i].0@ == name,
        forall|m: int| i < m < es.len() ==> (#[trigger] es[m]).0@ != name,
    ensures
        map_of(es).contains_key(name),
        map_of(es)[name] == es[i].1,
    decreases es.len(),
{
    if i < es.len() - 1 {
        assert(es.drop_last()[i] == es[i]);
        lemma_map_of_get(es.drop_last(), name, i);
    }
}

/// A name bound nowhere is not in the map.
proof fn lemma_map_of_none(es: Seq<(String, Value)>, name: Seq<char>)
    requires
        forall|m: int| 0 <= m < es.len() ==> (#[trigger] es[m]).0@ != name,
    ensures
        !map_of(es).contains_key(name),
    decreases es.len(),
{
    if es.len() > 0 {
        lemma_map_of_none(es.drop_last(), name);
    }
}

impl VariableSet {
    /// An empty variable set.
    pub fn new() -> (r: VariableSet)
        ensures
            r@ == Map::<Seq<char>, Value>::empty(),
    {
        VariableSet { entries: Vec::new() }
    }

    /// Bind `name` to `value`; a previous binding of the same name is
    /// overridden.
    pub fn insert(&mut self, name: String, value: Value)
        ensures
            final(self)@ == old(self)@.insert(name@, value),
    {
        let ghost olde = self.entries@;
        let ghost n = name@;
        let ghost v = value;
        self.entries.push((name, value));
        proof {
            assert(self.entries@.drop_last() =~= olde);
            assert(self.entries@.last().0@ == n);
        }
    }

    /// Look `name` up, returning the latest binding.
    #[verifier::loop_isolation(false)]
    pub fn get(&self, name: &String) -> (r: Option<&Value>)
        ensures
            match r {
                Some(v) => self@.contains_key(name@) && *v == self@[name@],
                None => !self@.contains_key(name@),
            },
    {
        let mut i = self.entries.len();
        while i > 0
            invariant
                i <= self.entries.len(),
                forall|m: int|
                    i <= m < self.entries@.len() ==> (#[trigger] self.entries@[m]).0@ != name@,
            decreases i,
        {
            i = i - 1;
            if self.entries[i].0 == *name {
                proof {
                    lemma_map_of_get(self.entries@, name@, i as int);
                }
                return Some(&self.entries[i].1);
            }
        }
        proof {
            lemma_map_of_none(self.entries@, name@);
        }
        None
    }
}

} // verus!
