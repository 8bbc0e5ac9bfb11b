use crate::text::{chars_of, integer_text, push_integer, string_from_chars};
use crate::value::{Value, ValueView};
use vstd::prelude::*;

verus! {

/// The text of one character inside a string literal: quotes, newlines
/// and tabs are escaped so that the text reads back the same.
pub open spec fn escape_char(c: char) -> Seq<char> {
    if c == '"' {
        seq!['\\', '"']
    } else if c == '\n' {
        seq!['\\', 'n']
    } else if c == '\t' {
        seq!['\\', 't']
    } else {
        seq![c]
    }
}

pub open spec fn escape(s: Seq<char>) -> Seq<char>
    decreases s.len(),
{
    if s.len() == 0 {
        s
    } else {
        escape(s.drop_last()) + escape_char(s.last())
    }
}

/// The text of a value, whose nested lines start with `pad` followed by
/// one more `unit` per level; every value ends with a newline.
pub open spec fn render(v: ValueView, unit: Seq<char>, pad: Seq<char>) -> Seq<char>
    decreases v,
{
    match v {
        ValueView::Null => seq!['n', 'u', 'l', 'l', '\n'],
        ValueView::Bool(b) => if b {
            seq!['t', 'r', 'u', 'e', '\n']
        } else {
            seq!['f', 'a', 'l', 's', 'e', '\n']
        },
        ValueView::Float(n, d) => (if n {
            seq!['-']
        } else {
            Seq::empty()
        }) + d + seq!['\n'],
        ValueView::Integer(i) => integer_text(i) + seq!['\n'],
        ValueView::String(s) => seq!['"'] + escape(s) + seq!['"', '\n'],
        ValueView::Char(c) => seq!['\'', c, '\'', '\n'],
        ValueView::Enum(s) => s + seq!['\n'],
        ValueView::Array(items) => seq!['[', '\n'] + render_items(items, unit, pad + unit) + pad + seq![
            ']',
            '\n',
        ],
        ValueView::Object(fields) => seq!['{', '\n'] + render_fields(fields, unit, pad + unit) + pad
            + seq!['}', '\n'],
    }
}

/// The elements of an array, one per line.
pub open spec fn render_items(items: Seq<ValueView>, unit: Seq<char>, pad: Seq<char>) -> Seq<char>
    decreases items,
{
    if items.len() == 0 {
        Seq::empty()
    } else {
        render_items(items.subrange(0, items.len() - 1), unit, pad) + pad + render(
            items[items.len() - 1],
            unit,
            pad,
        )
    }
}

/// The fields of an object, one `name: value` per line.
pub open spec fn render_fields(
    fields: Seq<(Seq<char>, ValueView)>,
    unit: Seq<char>,
    pad: Seq<char>,
) -> Seq<char>
    decreases fields,
{
    if fields.len() == 0 {
        Seq::empty()
    } else {
        render_fields(fields.subrange(0, fields.len() - 1), unit, pad) + pad + fields[fields.len()
            - 1].0 + seq![':', ' '] + render(fields[fields.len() - 1].1, unit, pad)
    }
}

fn extend_chars(out: &mut Vec<char>, s: &Vec<char>)
    ensures
        final(out)@ == old(out)@ + s@,
{
    let mut i: usize = 0;
    while i < s.len()
        invariant
            i <= s.len(),
            out@ == old(out)@ + s@.take(i as int),
        decreases s.len() - i,
    {
        out.push(s[i]);
        assert(s@.take(i + 1) =~= s@.take(i as int).push(s@[i as int]));
        i += 1;
    }
    assert(s@.take(s.len() as int) =~= s@);
}

fn push_escaped(out: &mut Vec<char>, s: &Vec<char>)
    ensures
        final(out)@ == old(out)@ + escape(s@),
{
    let mut i: usize = 0;
    while i < s.len()
        invariant
            i <= s.len(),
            out@ == old(out)@ + escape(s@.take(i as int)),
        decreases s.len() - i,
    {
        let c = s[i];
        assert(s@.take(i + 1).drop_last() =~= s@.take(i as int));
        if c == '"' {
            out.push('\\');
            out.push('"');
        } else if c == '\n' {
            out.push('\\');
            out.push('n');
        } else if c == '\t' {
            out.push('\\');
            out.push('t');
        } else {
            out.push(c);
        }
        assert(out@ =~= old(out)@ + escape(s@.take(i + 1)));
        i += 1;
    }
    assert(s@.take(s.len() as int) =~= s@);
}

impl Value {
    /// The text of this value, indented by four spaces per level.
    pub fn to_string(&self) -> (r: String)
        ensures
            r@ == render(self.view(), "    "@, Seq::empty()),
    {
        let printer = Printer::new("    ".to_owned());
        printer.son_to_string(self)
    }
}

/// Renders value trees as text.
pub struct Printer {
    indentation: String,
}

impl Printer {
    pub closed spec fn unit(self) -> Seq<char> {
        self.indentation@
    }

    /// A printer that indents each level by `indentation`.
    pub fn new(indentation: String) -> (r: Printer)
        ensures
            r.unit() == indentation@,
    {
        Printer { indentation }
    }

    /// The text of a value: see `render`.
    pub fn son_to_string(&self, son: &Value) -> (r: String)
        ensures
            r@ == render(son.view(), self.unit(), Seq::empty()),
    {
        let unit = chars_of(self.indentation.as_str());
        let pad: Vec<char> = Vec::new();
        let mut out: Vec<char> = Vec::new();
        Printer::son_to_string_inner(&unit, son, &pad, &mut out);
        assert(out@ =~= render(son.view(), self.unit(), pad@));
        string_from_chars(&out)
    }

    fn son_to_string_inner(unit: &Vec<char>, son: &Value, pad: &Vec<char>, out: &mut Vec<char>)
        ensures
            final(out)@ == old(out)@ + render(son.view(), unit@, pad@),
        decreases son,
    {
        match son {
            Value::Null => {
                out.push('n');
                out.push('u');
                out.push('l');
                out.push('l');
            },
            Value::Bool(b) => {
                if *b {
                    out.push('t');
                    out.push('r');
                    out.push('u');
                    out.push('e');
                } else {
                    out.push('f');
                    out.push('a');
                    out.push('l');
                    out.push('s');
                    out.push('e');
                }
            },
            Value::Float(d) => {
                if d.negative {
                    out.push('-');
                }
                extend_chars(out, &chars_of(d.digits.as_str()));
            },
            Value::Integer(i) => push_integer(*i, out),
            Value::String(s) => {
                out.push('"');
                push_escaped(out, &chars_of(s.as_str()));
                out.push('"');
            },
            Value::Char(c) => {
                out.push('\'');
                out.push(*c);
                out.push('\'');
            },
            Value::Enum(s) => extend_chars(out, &chars_of(s.as_str())),
            Value::Array(a) => {
                let ghost items = son.view()->Array_0;
                let ghost base = old(out)@;
                out.push('[');
                out.push('\n');
                let mut child_pad: Vec<char> = Vec::new();
                extend_chars(&mut child_pad, pad);
                extend_chars(&mut child_pad, unit);
                let ghost start = out@;
                let mut i: usize = 0;
                assert(items.subrange(0, 0) =~= Seq::<ValueView>::empty());
                while i < a.len()
                    invariant
                        *son == Value::Array(*a),
                        items == son.view()->Array_0,
                        i <= a.len(),
                        child_pad@ == pad@ + unit@,
                        out@ == start + render_items(items.subrange(0, i as int), unit@, child_pad@),
                    decreases a.len() - i,
                {
                    proof {
                        vstd::std_specs::vec::axiom_vec_index_decreases(*a, i as int);
                        assert(decreases_to!(*son => (*son)->Array_0));
                        assert(decreases_to!(*son => a[i as int]));
                        assert(items.subrange(0, i + 1).subrange(0, i as int) =~= items.subrange(0, i as int));
                    }
                    extend_chars(out, &child_pad);
                    Printer::son_to_string_inner(unit, &a[i], &child_pad, out);
                    i += 1;
                }
                assert(items.subrange(0, a.len() as int) =~= items);
                extend_chars(out, pad);
                out.push(']');
            },
            Value::Object(o) => {
                let ghost fields = son.view()->Object_0;
                out.push('{');
                out.push('\n');
                let mut child_pad: Vec<char> = Vec::new();
                extend_chars(&mut child_pad, pad);
                extend_chars(&mut child_pad, unit);
                let ghost start = out@;
                let mut i: usize = 0;
                assert(fields.subrange(0, 0) =~= Seq::<(Seq<char>, ValueView)>::empty());
                while i < o.len()
                    invariant
                        *son == Value::Object(*o),
                        fields == son.view()->Object_0,
                        i <= o.len(),
                        child_pad@ == pad@ + unit@,
                        out@ == start + render_fields(fields.subrange(0, i as int), unit@, child_pad@),
                    decreases o.len() - i,
                {
                    proof {
                        vstd::std_specs::vec::axiom_vec_index_decreases(*o, i as int);
                        assert(decreases_to!(*son => (*son)->Object_0));
                        assert(decreases_to!(o[i as int] => o[i as int].1));
                        assert(decreases_to!(*son => o[i as int].1));
                        assert(fields.subrange(0, i + 1).subrange(0, i as int) =~= fields.subrange(0, i as int));
                    }
                    extend_chars(out, &child_pad);
                    extend_chars(out, &chars_of(o[i].0.as_str()));
                    out.push(':');
                    out.push(' ');
                    Printer::son_to_string_inner(unit, &o[i].1, &child_pad, out);
                    i += 1;
                }
                assert(fields.subrange(0, o.len() as int) =~= fields);
                extend_chars(out, pad);
                out.push('}');
            },
        }
        out.push('\n');
        assert(final(out)@ =~= old(out)@ + render(son.view(), unit@, pad@));
    }
}

} // verus!
