//! Declared assignment targets: a key is a name plus a type tag inferred
//! from an optional `:type`, `[...]` or `[index]` annotation.

use vstd::prelude::*;
use crate::search::spec_find;
use crate::strutil::{str_eq, substr_copy};

verus! {

/// The closed set of shapes a key can declare. Scalar-like shapes are
/// `Indexed` and `Str`; array-like shapes are the four element-typed arrays
/// and the two key-value maps; the remaining shapes are scalar numeric and
/// boolean kinds.
#[derive(Debug, PartialEq, Eq)]
pub enum Primitive {
    Str,
    StrArray,
    Boolean,
    BooleanArray,
    Float,
    FloatArray,
    Integer,
    IntegerArray,
    HashMap,
    BTreeMap,
    /// An indexed target `name[index]`; the payload is the index text.
    Indexed(String),
}

impl Clone for Primitive {
    fn clone(&self) -> (r: Self)
        ensures
            r == *self,
    {
        match self {
            Primitive::Str => Primitive::Str,
            Primitive::StrArray => Primitive::StrArray,
            Primitive::Boolean => Primitive::Boolean,
            Primitive::BooleanArray => Primitive::BooleanArray,
            Primitive::Float => Primitive::Float,
            Primitive::FloatArray => Primitive::FloatArray,
            Primitive::Integer => Primitive::Integer,
            Primitive::IntegerArray => Primitive::IntegerArray,
            Primitive::HashMap => Primitive::HashMap,
            Primitive::BTreeMap => Primitive::BTreeMap,
            Primitive::Indexed(s) => Primitive::Indexed(s.clone()),
        }
    }
}

/// The scalar-like shapes accept any value text.
pub open spec fn is_scalar_kind(k: Primitive) -> bool {
    k is Str || k is Indexed
}

/// The array-like shapes require a bracket-delimited value.
pub open spec fn is_array_kind(k: Primitive) -> bool {
    k is StrArray || k is BooleanArray || k is FloatArray || k is IntegerArray || k is HashMap
        || k is BTreeMap
}

/// The name each shape prints as in diagnostics.
pub open spec fn spec_kind_text(k: Primitive) -> Seq<char> {
    match k {
        Primitive::Str => "str"@,
        Primitive::StrArray => "str[]"@,
        Primitive::Boolean => "bool"@,
        Primitive::BooleanArray => "bool[]"@,
        Primitive::Float => "float"@,
        Primitive::FloatArray => "float[]"@,
        Primitive::Integer => "int"@,
        Primitive::IntegerArray => "int[]"@,
        Primitive::HashMap => "hmap[]"@,
        Primitive::BTreeMap => "bmap[]"@,
        Primitive::Indexed(ix) => "indexed["@ + ix@ + "]"@,
    }
}

impl Primitive {
    /// The shape's name, as diagnostics print it.
    pub fn kind_text(&self) -> (r: String)
        ensures
            r@ == spec_kind_text(*self),
    {
        match self {
            Primitive::Str => String::from_str("str"),
            Primitive::StrArray => String::from_str("str[]"),
            Primitive::Boolean => String::from_str("bool"),
            Primitive::BooleanArray => String::from_str("bool[]"),
            Primitive::Float => String::from_str("float"),
            Primitive::FloatArray => String::from_str("float[]"),
            Primitive::Integer => String::from_str("int"),
            Primitive::IntegerArray => String::from_str("int[]"),
            Primitive::HashMap => String::from_str("hmap[]"),
            Primitive::BTreeMap => String::from_str("bmap[]"),
            Primitive::Indexed(ix) => {
                let mut s = String::from_str("indexed[");
                s.append(ix.as_str());
                s.append("]");
                s
            },
        }
    }
}

/// A type annotation the key lexer does not recognize.
#[derive(Debug, PartialEq, Eq)]
pub enum TypeError {
    Invalid(String),
}

impl Clone for TypeError {
    fn clone(&self) -> (r: Self)
        ensures
            r == *self,
    {
        match self {
            TypeError::Invalid(s) => TypeError::Invalid(s.clone()),
        }
    }
}

/// A declared assignment target: name plus inferred shape. Owned copies are
/// taken of the statement text; a key is valid only for the statement it was
/// parsed from.
#[derive(Debug, PartialEq, Eq)]
pub struct Key {
    pub name: String,
    pub kind: Primitive,
}

impl Clone for Key {
    fn clone(&self) -> (r: Self)
        ensures
            r == *self,
    {
        Key { name: self.name.clone(), kind: self.kind.clone() }
    }
}

/// The shape named by an explicit `:type` annotation, or `None` for an
/// annotation outside the closed set.
pub open spec fn spec_parse_type(t: Seq<char>) -> Option<Primitive> {
    if t == "str"@ {
        Some(Primitive::Str)
    } else if t == "bool"@ {
        Some(Primitive::Boolean)
    } else if t == "int"@ {
        Some(Primitive::Integer)
    } else if t == "float"@ {
        Some(Primitive::Float)
    } else if t == "str[]"@ || t == "[str]"@ {
        Some(Primitive::StrArray)
    } else if t == "bool[]"@ || t == "[bool]"@ {
        Some(Primitive::BooleanArray)
    } else if t == "int[]"@ || t == "[int]"@ {
        Some(Primitive::IntegerArray)
    } else if t == "float[]"@ || t == "[float]"@ {
        Some(Primitive::FloatArray)
    } else if t == "hmap[]"@ {
        Some(Primitive::HashMap)
    } else if t == "bmap[]"@ {
        Some(Primitive::BTreeMap)
    } else {
        None
    }
}

/// Maps an explicit type annotation to its shape.
pub fn parse_type(t: &str) -> (r: Option<Primitive>)
    ensures
        match r {
            Some(k) => spec_parse_type(t@) == Some(k),
            None => spec_parse_type(t@) is None,
        },
{
    if str_eq(t, "str") {
        Some(Primitive::Str)
    } else if str_eq(t, "bool") {
        Some(Primitive::Boolean)
    } else if str_eq(t, "int") {
        Some(Primitive::Integer)
    } else if str_eq(t, "float") {
        Some(Primitive::Float)
    } else if str_eq(t, "str[]") || str_eq(t, "[str]") {
        Some(Primitive::StrArray)
    } else if str_eq(t, "bool[]") || str_eq(t, "[bool]") {
        Some(Primitive::BooleanArray)
    } else if str_eq(t, "int[]") || str_eq(t, "[int]") {
        Some(Primitive::IntegerArray)
    } else if str_eq(t, "float[]") || str_eq(t, "[float]") {
        Some(Primitive::FloatArray)
    } else if str_eq(t, "hmap[]") {
        Some(Primitive::HashMap)
    } else if str_eq(t, "bmap[]") {
        Some(Primitive::BTreeMap)
    } else {
        None
    }
}

/// How one key token is read. With a `:` the text before it is the name and
/// the text after it a type annotation, where an unknown annotation is a type
/// error carrying that text. Without one, a trailing `[]` declares a string
/// array; a trailing `[index]` an indexed target; any other token is a plain
/// string key.
pub open spec fn spec_key_rel(t: Seq<char>, out: Result<Key, TypeError>) -> bool {
    match spec_find(t, seq![':'], 0) {
        Some(ci) => {
            let name = t.subrange(0, ci);
            let ty = t.subrange(ci + 1, t.len() as int);
            match spec_parse_type(ty) {
                Some(k) => out matches Ok(key) && key.name@ == name && key.kind == k,
                None => out matches Err(TypeError::Invalid(m)) && m@ == ty,
            }
        },
        None => {
            if t.len() >= 2 && t[t.len() - 2] == '[' && t[t.len() - 1] == ']' {
                out matches Ok(key) && key.name@ == t.subrange(0, t.len() - 2) && key.kind
                    is StrArray
            } else if t.len() >= 1 && t[t.len() - 1] == ']' {
                match spec_find(t, seq!['['], 0) {
                    Some(bi) => out matches Ok(key) && key.name@ == t.subrange(0, bi) && (
                    key.kind matches Primitive::Indexed(ix) && ix@ == t.subrange(
                        bi + 1,
                        t.len() - 1,
                    )),
                    None => out matches Ok(key) && key.name@ == t && key.kind is Str,
                }
            } else {
                out matches Ok(key) && key.name@ == t && key.kind is Str
            }
        },
    }
}

/// Reads one key token as [`spec_key_rel`] describes.
pub fn parse_key(t: &str) -> (r: Result<Key, TypeError>)
    ensures
        spec_key_rel(t@, r),
{
    proof {
        reveal_strlit(":");
        reveal_strlit("[");
        assert(":"@ =~= seq![':']);
        assert("["@ =~= seq!['[']);
    }
    let n = t.unicode_len();
    match crate::search::find_sub(t, ":") {
        Some(ci) => {
            proof {
                crate::search::lemma_spec_find_in_range(t@, seq![':'], ci as int);
            }
            let name = substr_copy(t, 0, ci);
            let ty = substr_copy(t, ci + 1, n);
            match parse_type(ty.as_str()) {
                Some(k) => Ok(Key { name, kind: k }),
                None => Err(TypeError::Invalid(ty)),
            }
        },
        None => {
            let lb = crate::search::find_sub(t, "[");
            if n >= 2 && t.get_char(n - 2) == '[' && t.get_char(n - 1) == ']' {
                Ok(Key { name: substr_copy(t, 0, n - 2), kind: Primitive::StrArray })
            } else if n >= 1 && t.get_char(n - 1) == ']' && lb.is_some() {
                let bi = lb.unwrap();
                proof {
                    crate::search::lemma_spec_find_in_range(t@, seq!['['], bi as int);
                    assert(t@.subrange(bi as int, bi as int + 1)[0] == t@[bi as int]);
                    assert(t@[bi as int] == '[');
                }
                let name = substr_copy(t, 0, bi);
                let ix = substr_copy(t, bi + 1, n - 1);
                Ok(Key { name, kind: Primitive::Indexed(ix) })
            } else {
                Ok(Key { name: String::from_str(t), kind: Primitive::Str })
            }
        },
    }
}

} // verus!
