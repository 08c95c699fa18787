//! Script values as the library holds them, and their text forms.

use vstd::prelude::*;
use crate::text::{chars_of, int_decimal, push_all, push_signed_decimal, string_of};

verus! {

/// A value of the page-script language.
#[derive(Debug)]
pub enum Value {
    /// The unit value `()`.
    Unit,
    Bool(bool),
    Int(i64),
    Char(char),
    Str(String),
    /// A floating-point number, held by its bit pattern together with the
    /// texts that the script runtime prints for it (`Display` and `Debug`).
    Float { bits: u64, text: String, debug: String },
    Array(Vec<Value>),
    /// An object map; its keys are in ascending order, as the script
    /// runtime keeps them.
    Object(Vec<(String, Value)>),
    /// Any other script value, held by its `Display` and `Debug` texts.
    Other { text: String, debug: String },
}

/// The `Debug` text of a string: quoted, with escapes.
pub uninterp spec fn str_debug(s: Seq<char>) -> Seq<char>;

/// The `Debug` text of a character: quoted, with escapes.
pub uninterp spec fn char_debug(c: char) -> Seq<char>;

/// Formats a string with std's `{:?}` (`Debug`). Claimed: the text is a
/// function of the string alone, named `str_debug`.
#[verifier::external_body]
fn debug_of_str(s: &str) -> (r: String)
    ensures
        r@ == str_debug(s@),
{
    format!("{:?}", s)
}

/// Formats a character with std's `{:?}` (`Debug`). Claimed: the text is a
/// function of the character alone, named `char_debug`.
#[verifier::external_body]
fn debug_of_char(c: char) -> (r: String)
    ensures
        r@ == char_debug(c),
{
    format!("{:?}", c)
}

/// `"true"` or `"false"`.
pub open spec fn bool_text(b: bool) -> Seq<char> {
    if b {
        "true"@
    } else {
        "false"@
    }
}

/// The `Debug` text of a value, as the script runtime prints it.
pub open spec fn value_debug(v: Value) -> Seq<char>
    decreases v,
{
    match v {
        Value::Unit => "()"@,
        Value::Bool(b) => bool_text(b),
        Value::Int(i) => int_decimal(i as int),
        Value::Char(c) => char_debug(c),
        Value::Str(s) => str_debug(s@),
        Value::Float { bits, text, debug } => debug@,
        Value::Array(items) => "["@ + list_debug(items@) + "]"@,
        Value::Object(entries) => "#{"@ + map_debug(entries@) + "}"@,
        Value::Other { text, debug } => debug@,
    }
}

/// The items' `Debug` texts separated by `", "`.
pub open spec fn list_debug(s: Seq<Value>) -> Seq<char>
    decreases s,
{
    if s.len() == 0 {
        Seq::empty()
    } else if s.len() == 1 {
        value_debug(s[0])
    } else {
        list_debug(s.drop_last()) + ", "@ + value_debug(s.last())
    }
}

/// The entries as `"key": value` separated by `", "`.
pub open spec fn map_debug(s: Seq<(String, Value)>) -> Seq<char>
    decreases s,
{
    if s.len() == 0 {
        Seq::empty()
    } else if s.len() == 1 {
        str_debug(s[0].0@) + ": "@ + value_debug(s[0].1)
    } else {
        map_debug(s.drop_last()) + ", "@ + str_debug(s.last().0@) + ": "@ + value_debug(
            s.last().1,
        )
    }
}

/// The `Display` text of a value (what `to_string` gives in scripts).
pub open spec fn value_text(v: Value) -> Seq<char> {
    match v {
        Value::Unit => Seq::empty(),
        Value::Bool(b) => bool_text(b),
        Value::Int(i) => int_decimal(i as int),
        Value::Char(c) => seq![c],
        Value::Str(s) => s@,
        Value::Float { bits, text, debug } => text@,
        Value::Array(items) => value_debug(v),
        Value::Object(entries) => value_debug(v),
        Value::Other { text, debug } => text@,
    }
}

} // verus!

verus! {

/// Appends the `Debug` text of `v`.
pub fn push_debug(out: &mut Vec<char>, v: &Value)
    ensures
        final(out)@ == old(out)@ + value_debug(*v),
    decreases v,
{
    let ghost start = out@;
    match v {
        Value::Unit => {
            push_all(out, &chars_of("()"));
        },
        Value::Bool(b) => {
            if *b {
                push_all(out, &chars_of("true"));
            } else {
                push_all(out, &chars_of("false"));
            }
        },
        Value::Int(i) => {
            push_signed_decimal(out, *i);
        },
        Value::Char(c) => {
            let d = debug_of_char(*c);
            push_all(out, &chars_of(d.as_str()));
        },
        Value::Str(s) => {
            let d = debug_of_str(s.as_str());
            push_all(out, &chars_of(d.as_str()));
        },
        Value::Float { bits, text, debug } => {
            push_all(out, &chars_of(debug.as_str()));
        },
        Value::Array(items) => {
            push_all(out, &chars_of("["));
            let ghost mid = out@;
            let mut i: usize = 0;
            while i < items.len()
                invariant
                    i <= items.len(),
                    out@ == mid + list_debug(items@.take(i as int)),
                    *v == Value::Array(*items),
                decreases items.len() - i,
            {
                let ghost t = items@.take(i + 1);
                proof {
                    assert(t.drop_last() =~= items@.take(i as int));
                    assert(t.last() == items@[i as int]);
                    assert(*items == v->Array_0);
                    assert(decreases_to!(*v => v->Array_0));
                    assert(decreases_to!(*items => items@));
                    assert(decreases_to!(items@ => items@[i as int]));
                    assert(decreases_to!(*v => items@[i as int]));
                }
                if i > 0 {
                    push_all(out, &chars_of(", "));
                }
                push_debug(out, &items[i]);
                proof {
                    if i == 0 {
                        assert(t[0] == items@[0]);
                        assert(list_debug(items@.take(0)) =~= Seq::<char>::empty());
                    }
                }
                i = i + 1;
            }
            assert(items@.take(i as int) =~= items@);
            push_all(out, &chars_of("]"));
        },
        Value::Object(entries) => {
            push_all(out, &chars_of("#{"));
            let ghost mid = out@;
            let mut i: usize = 0;
            while i < entries.len()
                invariant
                    i <= entries.len(),
                    out@ == mid + map_debug(entries@.take(i as int)),
                    *v == Value::Object(*entries),
                decreases entries.len() - i,
            {
                let ghost t = entries@.take(i + 1);
                proof {
                    assert(t.drop_last() =~= entries@.take(i as int));
                    assert(t.last() == entries@[i as int]);
                    assert(*entries == v->Object_0);
                    assert(decreases_to!(*v => v->Object_0));
                    assert(decreases_to!(*entries => entries@));
                    assert(decreases_to!(entries@ => entries@[i as int]));
                    assert(decreases_to!(entries@[i as int] => entries@[i as int].1));
                    assert(decreases_to!(*v => entries@[i as int].1));
                }
                if i > 0 {
                    push_all(out, &chars_of(", "));
                }
                let kd = debug_of_str(entries[i].0.as_str());
                push_all(out, &chars_of(kd.as_str()));
                push_all(out, &chars_of(": "));
                push_debug(out, &entries[i].1);
                proof {
                    if i == 0 {
                        assert(t[0] == entries@[0]);
                        assert(map_debug(entries@.take(0)) =~= Seq::<char>::empty());
                    }
                }
                i = i + 1;
            }
            assert(entries@.take(i as int) =~= entries@);
            push_all(out, &chars_of("}"));
        },
        Value::Other { text, debug } => {
            push_all(out, &chars_of(debug.as_str()));
        },
    }
}

impl Value {
    /// The `Debug` text of the value.
    pub fn debug_text(&self) -> (s: String)
        ensures
            s@ == value_debug(*self),
    {
        let mut out: Vec<char> = Vec::new();
        push_debug(&mut out, self);
        assert(out@ =~= value_debug(*self));
        string_of(&out)
    }

    /// The `Display` text of the value (`to_string` in scripts).
    pub fn to_text(&self) -> (s: String)
        ensures
            s@ == value_text(*self),
    {
        match self {
            Value::Unit => String::new(),
            Value::Bool(b) => {
                if *b {
                    "true".to_owned()
                } else {
                    "false".to_owned()
                }
            },
            Value::Int(i) => {
                let mut out: Vec<char> = Vec::new();
                push_signed_decimal(&mut out, *i);
                assert(out@ =~= int_decimal(*i as int));
                string_of(&out)
            },
            Value::Char(c) => {
                let mut out: Vec<char> = Vec::new();
                out.push(*c);
                assert(out@ =~= seq![*c]);
                string_of(&out)
            },
            Value::Str(s) => s.clone(),
            Value::Float { bits, text, debug } => text.clone(),
            Value::Array(_) => self.debug_text(),
            Value::Object(_) => self.debug_text(),
            Value::Other { text, debug } => text.clone(),
        }
    }

    /// Whether the value is the unit value.
    pub fn is_unit(&self) -> (b: bool)
        ensures
            b == (*self is Unit),
    {
        match self {
            Value::Unit => true,
            _ => false,
        }
    }
}

} // verus!
