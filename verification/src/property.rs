//! Typed properties: a named, disk-resident value of a fixed declared type.
//!
//! A [`TypedProperty`] is a lightweight handle: a display name, a file
//! location, and the type tag fixed at construction. The bytes at the
//! location are the sole source of truth; nothing is cached. This module
//! never performs I/O itself: construction returns the encoded text for the
//! caller to write, and each getter takes the text a fresh read produced
//! (`None` when the read failed), so that tag enforcement, parsing and the
//! error taxonomy are all verified here while the filesystem stays with the
//! caller.
use vstd::prelude::*;

use crate::codec::bool_text;
use crate::codec::bool_to_text;
use crate::codec::check_float_text;
use crate::codec::float_grammar;
use crate::codec::int_text;
use crate::codec::int_to_text;
use crate::codec::lemma_bool_text_round_trip;
use crate::codec::lemma_float_text_chars;
use crate::codec::lemma_int_text_no_newline;
use crate::codec::lemma_int_text_round_trip;
use crate::codec::parse_bool;
use crate::codec::parse_bool_text;
use crate::codec::parse_int;
use crate::codec::parse_int_text;
use crate::lines::join_lines;
use crate::lines::join_newlines;
use crate::lines::lemma_consecutive_newlines;
use crate::lines::lemma_split_join;
use crate::lines::no_newline;
use crate::lines::split_lines;
use crate::lines::split_newlines;

verus! {

/// The declared type of a property, fixed when the property is constructed
/// and checked against every read request.
#[derive(Clone, Copy, Debug, PartialEq, Eq, Structural)]
pub enum TypeTag {
    Str,
    Int,
    Float,
    Bool,
    StrList,
    IntList,
    FloatList,
    BoolList,
}

/// A value a property can hold. Floats are carried as their decimal text,
/// validated against the float grammar of [`crate::codec`].
#[derive(Clone, Debug, PartialEq, Eq)]
pub enum PropertyValue {
    Str(String),
    Int(i64),
    Float(String),
    Bool(bool),
    StrList(Vec<String>),
    IntList(Vec<i64>),
    FloatList(Vec<String>),
    BoolList(Vec<bool>),
}

/// The mathematical shape of a property value: character sequences and
/// unbounded integers in place of the executable types.
pub enum ValueModel {
    Str(Seq<char>),
    Int(int),
    Float(Seq<char>),
    Bool(bool),
    StrList(Seq<Seq<char>>),
    IntList(Seq<int>),
    FloatList(Seq<Seq<char>>),
    BoolList(Seq<bool>),
}

impl View for PropertyValue {
    type V = ValueModel;

    open spec fn view(&self) -> ValueModel {
        match self {
            PropertyValue::Str(s) => ValueModel::Str(s@),
            PropertyValue::Int(i) => ValueModel::Int(*i as int),
            PropertyValue::Float(t) => ValueModel::Float(t@),
            PropertyValue::Bool(b) => ValueModel::Bool(*b),
            PropertyValue::StrList(v) => ValueModel::StrList(v.deep_view()),
            PropertyValue::IntList(v) => ValueModel::IntList(
                v@.map_values(|x: i64| x as int),
            ),
            PropertyValue::FloatList(v) => ValueModel::FloatList(v.deep_view()),
            PropertyValue::BoolList(v) => ValueModel::BoolList(v@),
        }
    }
}

/// The tag a value falls under.
pub open spec fn tag_of(m: ValueModel) -> TypeTag {
    match m {
        ValueModel::Str(_) => TypeTag::Str,
        ValueModel::Int(_) => TypeTag::Int,
        ValueModel::Float(_) => TypeTag::Float,
        ValueModel::Bool(_) => TypeTag::Bool,
        ValueModel::StrList(_) => TypeTag::StrList,
        ValueModel::IntList(_) => TypeTag::IntList,
        ValueModel::FloatList(_) => TypeTag::FloatList,
        ValueModel::BoolList(_) => TypeTag::BoolList,
    }
}

/// A well-formed value: integers fit in `i64`, float texts match the float
/// grammar. Strings, booleans and their lists carry no side condition.
pub open spec fn model_wf(m: ValueModel) -> bool {
    match m {
        ValueModel::Int(i) => i64::MIN <= i <= i64::MAX,
        ValueModel::Float(t) => float_grammar(t),
        ValueModel::IntList(xs) => forall|i: int|
            0 <= i < xs.len() ==> i64::MIN <= #[trigger] xs[i] <= i64::MAX,
        ValueModel::FloatList(ts) => forall|i: int|
            0 <= i < ts.len() ==> float_grammar(#[trigger] ts[i]),
        _ => true,
    }
}

/// The text stored for a value: scalars per their codec, lists joined by
/// newlines.
pub open spec fn encode_model(m: ValueModel) -> Seq<char> {
    match m {
        ValueModel::Str(s) => s,
        ValueModel::Int(i) => int_text(i),
        ValueModel::Float(t) => t,
        ValueModel::Bool(b) => bool_text(b),
        ValueModel::StrList(es) => join_lines(es),
        ValueModel::IntList(xs) => join_lines(Seq::new(xs.len(), |i: int| int_text(xs[i]))),
        ValueModel::FloatList(ts) => join_lines(ts),
        ValueModel::BoolList(bs) => join_lines(Seq::new(bs.len(), |i: int| bool_text(bs[i]))),
    }
}

/// The integers held by a list of element texts, or nothing if any element
/// fails the integer grammar.
pub open spec fn parse_int_lines(es: Seq<Seq<char>>) -> Option<Seq<int>> {
    if forall|i: int| 0 <= i < es.len() ==> parse_int_text(#[trigger] es[i]) is Some {
        Some(Seq::new(es.len(), |i: int| parse_int_text(es[i])->0))
    } else {
        None
    }
}

/// The booleans held by a list of element texts.
pub open spec fn parse_bool_lines(es: Seq<Seq<char>>) -> Option<Seq<bool>> {
    if forall|i: int| 0 <= i < es.len() ==> parse_bool_text(#[trigger] es[i]) is Some {
        Some(Seq::new(es.len(), |i: int| parse_bool_text(es[i])->0))
    } else {
        None
    }
}

/// The float texts held by a list of element texts.
pub open spec fn parse_float_lines(es: Seq<Seq<char>>) -> Option<Seq<Seq<char>>> {
    if forall|i: int| 0 <= i < es.len() ==> float_grammar(#[trigger] es[i]) {
        Some(es)
    } else {
        None
    }
}

/// What decoding a stored text under a tag yields: the denoted value, or
/// nothing when the text does not match the tag's grammar.
pub open spec fn decode_model(tag: TypeTag, s: Seq<char>) -> Option<ValueModel> {
    match tag {
        TypeTag::Str => Some(ValueModel::Str(s)),
        TypeTag::Int => match parse_int_text(s) {
            Some(i) => Some(ValueModel::Int(i)),
            None => None,
        },
        TypeTag::Float => if float_grammar(s) {
            Some(ValueModel::Float(s))
        } else {
            None
        },
        TypeTag::Bool => match parse_bool_text(s) {
            Some(b) => Some(ValueModel::Bool(b)),
            None => None,
        },
        TypeTag::StrList => Some(ValueModel::StrList(split_lines(s))),
        TypeTag::IntList => match parse_int_lines(split_lines(s)) {
            Some(xs) => Some(ValueModel::IntList(xs)),
            None => None,
        },
        TypeTag::FloatList => match parse_float_lines(split_lines(s)) {
            Some(ts) => Some(ValueModel::FloatList(ts)),
            None => None,
        },
        TypeTag::BoolList => match parse_bool_lines(split_lines(s)) {
            Some(bs) => Some(ValueModel::BoolList(bs)),
            None => None,
        },
    }
}

/// How a read request can fail, each kind distinct: the read itself failed;
/// the property's tag is not the requested type; or the text does not match
/// the tag's grammar.
#[derive(Clone, Debug, PartialEq, Eq)]
pub enum PropertyError {
    /// The caller's read of the backing file failed.
    Io,
    /// The requested type differs from the tag fixed at construction.
    TypeMismatch { expected: TypeTag, at: String },
    /// The stored text does not parse under the declared type; `token` is
    /// the first piece of text that failed.
    Parse { token: String, at: String },
}

/// One named, disk-resident value of a fixed declared type. The handle
/// holds no cache: the file at `location` is authoritative, and every
/// getter works from a fresh read the caller supplies.
#[derive(Clone, Debug)]
pub struct TypedProperty {
    /// Display identifier; not used for lookup or path derivation.
    pub name: String,
    /// The backing file's path; the sole persistent state.
    pub location: String,
    /// The declared type, set once at construction.
    pub tag: TypeTag,
}

/// Encodes a value as the text its file will hold.
pub fn encode_value(value: &PropertyValue) -> (r: String)
    ensures
        r@ == encode_model(value@),
{
    match value {
        PropertyValue::Str(s) => s.clone(),
        PropertyValue::Int(i) => int_to_text(*i),
        PropertyValue::Float(t) => t.clone(),
        PropertyValue::Bool(b) => bool_to_text(*b),
        PropertyValue::StrList(v) => join_newlines(v),
        PropertyValue::IntList(v) => {
            let mut elems: Vec<String> = Vec::new();
            let mut i: usize = 0;
            while i < v.len()
                invariant
                    0 <= i <= v.len(),
                    elems.deep_view() =~= Seq::new(i as nat, |k: int| int_text(v@[k] as int)),
                decreases v.len() - i,
            {
                let ghost prev = elems.deep_view();
                let t = int_to_text(v[i]);
                elems.push(t);
                proof {
                    assert(elems.deep_view() =~= prev.push(t@));
                    assert(elems.deep_view() =~= Seq::new((i + 1) as nat, |k: int| int_text(v@[k] as int)));
                }
                i = i + 1;
            }
            let r = join_newlines(&elems);
            proof {
                let xs = v@.map_values(|x: i64| x as int);
                assert(elems.deep_view() =~= Seq::new(xs.len(), |k: int| int_text(xs[k])));
            }
            r
        },
        PropertyValue::FloatList(v) => join_newlines(v),
        PropertyValue::BoolList(v) => {
            let mut elems: Vec<String> = Vec::new();
            let mut i: usize = 0;
            while i < v.len()
                invariant
                    0 <= i <= v.len(),
                    elems.deep_view() =~= Seq::new(i as nat, |k: int| bool_text(v@[k])),
                decreases v.len() - i,
            {
                let ghost prev = elems.deep_view();
                let t = bool_to_text(v[i]);
                elems.push(t);
                proof {
                    assert(elems.deep_view() =~= prev.push(t@));
                    assert(elems.deep_view() =~= Seq::new((i + 1) as nat, |k: int| bool_text(v@[k])));
                }
                i = i + 1;
            }
            let r = join_newlines(&elems);
            proof {
                assert(elems.deep_view() =~= Seq::new(v@.len(), |k: int| bool_text(v@[k])));
            }
            r
        },
    }
}

impl TypedProperty {
    /// Builds the property handle for a value and the encoded text its file
    /// must initially hold. The caller creates (or truncates) the file at
    /// `location` and writes the text; if that write fails, construction as
    /// a whole has failed and the handle should be discarded.
    pub fn construct(name: String, location: String, value: &PropertyValue) -> (r: (
        TypedProperty,
        String,
    ))
        requires
            model_wf(value@),
        ensures
            r.0.name == name,
            r.0.location == location,
            r.0.tag == tag_of(value@),
            r.1@ == encode_model(value@),
    {
        let content = encode_value(value);
        let tag = match value {
            PropertyValue::Str(_) => TypeTag::Str,
            PropertyValue::Int(_) => TypeTag::Int,
            PropertyValue::Float(_) => TypeTag::Float,
            PropertyValue::Bool(_) => TypeTag::Bool,
            PropertyValue::StrList(_) => TypeTag::StrList,
            PropertyValue::IntList(_) => TypeTag::IntList,
            PropertyValue::FloatList(_) => TypeTag::FloatList,
            PropertyValue::BoolList(_) => TypeTag::BoolList,
        };
        (TypedProperty { name, location, tag }, content)
    }

    /// Builds a string property: the file holds the string bytes unchanged.
    pub fn new_str(name: String, location: String, value: String) -> (r: (TypedProperty, String))
        ensures
            r.0.name == name,
            r.0.location == location,
            r.0.tag == TypeTag::Str,
            r.1@ == value@,
    {
        let v = PropertyValue::Str(value);
        Self::construct(name, location, &v)
    }

    /// Builds an integer property: the file holds the decimal text.
    pub fn new_int(name: String, location: String, value: i64) -> (r: (TypedProperty, String))
        ensures
            r.0.name == name,
            r.0.location == location,
            r.0.tag == TypeTag::Int,
            r.1@ == int_text(value as int),
    {
        let v = PropertyValue::Int(value);
        Self::construct(name, location, &v)
    }

    /// Builds a float property from its decimal text, which must match the
    /// float grammar.
    pub fn new_float(name: String, location: String, value: String) -> (r: (
        TypedProperty,
        String,
    ))
        requires
            float_grammar(value@),
        ensures
            r.0.name == name,
            r.0.location == location,
            r.0.tag == TypeTag::Float,
            r.1@ == value@,
    {
        let v = PropertyValue::Float(value);
        Self::construct(name, location, &v)
    }

    /// Builds a boolean property: the file holds `"1"` or `"0"`.
    pub fn new_bool(name: String, location: String, value: bool) -> (r: (TypedProperty, String))
        ensures
            r.0.name == name,
            r.0.location == location,
            r.0.tag == TypeTag::Bool,
            r.1@ == bool_text(value),
    {
        let v = PropertyValue::Bool(value);
        Self::construct(name, location, &v)
    }

    /// Builds a string-list property: the file holds the elements joined by
    /// newlines.
    pub fn new_str_list(name: String, location: String, value: Vec<String>) -> (r: (
        TypedProperty,
        String,
    ))
        ensures
            r.0.name == name,
            r.0.location == location,
            r.0.tag == TypeTag::StrList,
            r.1@ == join_lines(value.deep_view()),
    {
        let v = PropertyValue::StrList(value);
        Self::construct(name, location, &v)
    }

    /// Builds an integer-list property.
    pub fn new_int_list(name: String, location: String, value: Vec<i64>) -> (r: (
        TypedProperty,
        String,
    ))
        ensures
            r.0.name == name,
            r.0.location == location,
            r.0.tag == TypeTag::IntList,
            r.1@ == join_lines(Seq::new(value@.len(), |i: int| int_text(value@[i] as int))),
    {
        let v = PropertyValue::IntList(value);
        let r = Self::construct(name, location, &v);
        proof {
            let xs = value@.map_values(|x: i64| x as int);
            assert(Seq::new(xs.len(), |i: int| int_text(xs[i])) =~= Seq::new(
                value@.len(),
                |i: int| int_text(value@[i] as int),
            ));
        }
        r
    }

    /// Builds a float-list property; every element must match the float
    /// grammar.
    pub fn new_float_list(name: String, location: String, value: Vec<String>) -> (r: (
        TypedProperty,
        String,
    ))
        requires
            forall|i: int| 0 <= i < value@.len() ==> float_grammar(#[trigger] value@[i]@),
        ensures
            r.0.name == name,
            r.0.location == location,
            r.0.tag == TypeTag::FloatList,
            r.1@ == join_lines(value.deep_view()),
    {
        let v = PropertyValue::FloatList(value);
        proof {
            assert(forall|i: int|
                0 <= i < value.deep_view().len() ==> float_grammar(
                    #[trigger] value.deep_view()[i],
                ));
        }
        Self::construct(name, location, &v)
    }

    /// Builds a boolean-list property.
    pub fn new_bool_list(name: String, location: String, value: Vec<bool>) -> (r: (
        TypedProperty,
        String,
    ))
        ensures
            r.0.name == name,
            r.0.location == location,
            r.0.tag == TypeTag::BoolList,
            r.1@ == join_lines(Seq::new(value@.len(), |i: int| bool_text(value@[i]))),
    {
        let v = PropertyValue::BoolList(value);
        Self::construct(name, location, &v)
    }

    /// The type-mismatch error for a request of `expected` against this
    /// property.
    fn mismatch(&self, expected: TypeTag) -> (r: PropertyError)
        ensures
            (r matches PropertyError::TypeMismatch { expected: e, at } && e == expected && at@
                == self.location@),
    {
        PropertyError::TypeMismatch { expected, at: self.location.clone() }
    }

    /// Reads the property as a string. `content` is what a fresh read of
    /// the backing file produced, `None` when the read failed.
    pub fn get_str(&self, content: Option<String>) -> (r: Result<String, PropertyError>)
        ensures
            content is None ==> (r matches Err(e) && e is Io),
            content is Some && self.tag != TypeTag::Str ==> (r matches Err(e) && e
                matches PropertyError::TypeMismatch { expected, at } && expected == TypeTag::Str
                && at@ == self.location@),
            content matches Some(c) ==> self.tag == TypeTag::Str ==> (r matches Ok(v) && v@ == c@),
    {
        let c = match content {
            Some(c) => c,
            None => {
                return Err(PropertyError::Io);
            },
        };
        if !matches!(self.tag, TypeTag::Str) {
            return Err(self.mismatch(TypeTag::Str));
        }
        Ok(c)
    }

    /// Reads the property as an integer.
    pub fn get_int(&self, content: Option<String>) -> (r: Result<i64, PropertyError>)
        ensures
            content is None ==> (r matches Err(e) && e is Io),
            content is Some && self.tag != TypeTag::Int ==> (r matches Err(e) && e
                matches PropertyError::TypeMismatch { expected, at } && expected == TypeTag::Int
                && at@ == self.location@),
            content matches Some(c) ==> self.tag == TypeTag::Int ==> match parse_int_text(c@) {
                Some(i) => (r matches Ok(v) && v as int == i),
                None => (r matches Err(e) && e matches PropertyError::Parse { token, at } && token@
                    == c@ && at@ == self.location@),
            },
    {
        let c = match content {
            Some(c) => c,
            None => {
                return Err(PropertyError::Io);
            },
        };
        if !matches!(self.tag, TypeTag::Int) {
            return Err(self.mismatch(TypeTag::Int));
        }
        match parse_int(c.as_str()) {
            Some(v) => Ok(v),
            None => Err(PropertyError::Parse { token: c, at: self.location.clone() }),
        }
    }

    /// Reads the property as a float, returned as its validated decimal
    /// text.
    pub fn get_float(&self, content: Option<String>) -> (r: Result<String, PropertyError>)
        ensures
            content is None ==> (r matches Err(e) && e is Io),
            content is Some && self.tag != TypeTag::Float ==> (r matches Err(e) && e
                matches PropertyError::TypeMismatch { expected, at } && expected == TypeTag::Float
                && at@ == self.location@),
            content matches Some(c) ==> self.tag == TypeTag::Float ==> if float_grammar(c@) {
                r matches Ok(v) && v@ == c@
            } else {
                r matches Err(e) && (e matches PropertyError::Parse { token, at } && token@ == c@
                    && at@ == self.location@)
            },
    {
        let c = match content {
            Some(c) => c,
            None => {
                return Err(PropertyError::Io);
            },
        };
        if !matches!(self.tag, TypeTag::Float) {
            return Err(self.mismatch(TypeTag::Float));
        }
        if check_float_text(c.as_str()) {
            Ok(c)
        } else {
            Err(PropertyError::Parse { token: c, at: self.location.clone() })
        }
    }

    /// Reads the property as a list of strings.
    pub fn get_str_list(&self, content: Option<String>) -> (r: Result<
        Vec<String>,
        PropertyError,
    >)
        ensures
            content is None ==> (r matches Err(e) && e is Io),
            content is Some && self.tag != TypeTag::StrList ==> (r matches Err(e) && e
                matches PropertyError::TypeMismatch { expected, at } && expected
                == TypeTag::StrList && at@ == self.location@),
            content matches Some(c) ==> self.tag == TypeTag::StrList ==> (r matches Ok(v)
                && v.deep_view() == split_lines(c@)),
    {
        let c = match content {
            Some(c) => c,
            None => {
                return Err(PropertyError::Io);
            },
        };
        if !matches!(self.tag, TypeTag::StrList) {
            return Err(self.mismatch(TypeTag::StrList));
        }
        Ok(split_newlines(c.as_str()))
    }

    /// Reads the property as a list of integers. The first element that
    /// fails the integer grammar aborts the whole read: no partial list is
    /// ever returned.
    #[verifier::loop_isolation(false)]
    pub fn get_int_list(&self, content: Option<String>) -> (r: Result<Vec<i64>, PropertyError>)
        ensures
            content is None ==> (r matches Err(e) && e is Io),
            content is Some && self.tag != TypeTag::IntList ==> (r matches Err(e) && e
                matches PropertyError::TypeMismatch { expected, at } && expected
                == TypeTag::IntList && at@ == self.location@),
            content matches Some(c) ==> self.tag == TypeTag::IntList ==> match parse_int_lines(
                split_lines(c@),
            ) {
                Some(xs) => (r matches Ok(v) && v@.map_values(|x: i64| x as int) == xs),
                None => (r matches Err(e) && e matches PropertyError::Parse { token, at } && token@
                    == split_lines(c@)[first_bad_int(split_lines(c@))] && at@ == self.location@),
            },
    {
        let c = match content {
            Some(c) => c,
            None => {
                return Err(PropertyError::Io);
            },
        };
        if !matches!(self.tag, TypeTag::IntList) {
            return Err(self.mismatch(TypeTag::IntList));
        }
        let elems = split_newlines(c.as_str());
        let ghost es = split_lines(c@);
        let mut out: Vec<i64> = Vec::new();
        let mut i: usize = 0;
        while i < elems.len()
            invariant
                0 <= i <= elems.len(),
                es == elems.deep_view(),
                es.len() == elems.len(),
                matches!(self.tag, TypeTag::IntList),
                forall|j: int| 0 <= j < i ==> parse_int_text(#[trigger] es[j]) is Some,
                out@.len() == i,
                forall|j: int| 0 <= j < i ==> #[trigger] out@[j] as int == parse_int_text(
                    es[j],
                )->0,
            decreases elems.len() - i,
        {
            proof {
                assert(elems@[i as int]@ == es[i as int]);
            }
            match parse_int(elems[i].as_str()) {
                Some(v) => out.push(v),
                None => {
                    proof {
                        lemma_first_bad_int_at(es, i as int);
                        assert(parse_int_lines(es) is None);
                    }
                    return Err(
                        PropertyError::Parse {
                            token: elems[i].clone(),
                            at: self.location.clone(),
                        },
                    );
                },
            }
            i = i + 1;
        }
        proof {
            assert(parse_int_lines(es) is Some);
            assert(out@.map_values(|x: i64| x as int) =~= parse_int_lines(es)->0);
        }
        Ok(out)
    }

    /// Reads the property as a list of floats, each returned as its
    /// validated decimal text. The first element off the float grammar
    /// aborts the whole read.
    #[verifier::loop_isolation(false)]
    pub fn get_float_list(&self, content: Option<String>) -> (r: Result<
        Vec<String>,
        PropertyError,
    >)
        ensures
            content is None ==> (r matches Err(e) && e is Io),
            content is Some && self.tag != TypeTag::FloatList ==> (r matches Err(e) && e
                matches PropertyError::TypeMismatch { expected, at } && expected
                == TypeTag::FloatList && at@ == self.location@),
            content matches Some(c) ==> self.tag == TypeTag::FloatList ==> match parse_float_lines(
                split_lines(c@),
            ) {
                Some(ts) => (r matches Ok(v) && v.deep_view() == ts),
                None => (r matches Err(e) && e matches PropertyError::Parse { token, at } && token@
                    == split_lines(c@)[first_bad_float(split_lines(c@))] && at@
                    == self.location@),
            },
    {
        let c = match content {
            Some(c) => c,
            None => {
                return Err(PropertyError::Io);
            },
        };
        if !matches!(self.tag, TypeTag::FloatList) {
            return Err(self.mismatch(TypeTag::FloatList));
        }
        let elems = split_newlines(c.as_str());
        let ghost es = split_lines(c@);
        let mut i: usize = 0;
        while i < elems.len()
            invariant
                0 <= i <= elems.len(),
                es == elems.deep_view(),
                es.len() == elems.len(),
                matches!(self.tag, TypeTag::FloatList),
                forall|j: int| 0 <= j < i ==> float_grammar(#[trigger] es[j]),
            decreases elems.len() - i,
        {
            proof {
                assert(elems@[i as int]@ == es[i as int]);
            }
            if !check_float_text(elems[i].as_str()) {
                proof {
                    lemma_first_bad_float_at(es, i as int);
                    assert(parse_float_lines(es) is None);
                }
                return Err(
                    PropertyError::Parse { token: elems[i].clone(), at: self.location.clone() },
                );
            }
            i = i + 1;
        }
        proof {
            assert(parse_float_lines(es) == Some(es));
        }
        Ok(elems)
    }

    /// Reads the property as a list of booleans. The first element other
    /// than `0` or `1` aborts the whole read.
    #[verifier::loop_isolation(false)]
    pub fn get_bool_list(&self, content: Option<String>) -> (r: Result<Vec<bool>, PropertyError>)
        ensures
            content is None ==> (r matches Err(e) && e is Io),
            content is Some && self.tag != TypeTag::BoolList ==> (r matches Err(e) && e
                matches PropertyError::TypeMismatch { expected, at } && expected
                == TypeTag::BoolList && at@ == self.location@),
            content matches Some(c) ==> self.tag == TypeTag::BoolList ==> match parse_bool_lines(
                split_lines(c@),
            ) {
                Some(bs) => (r matches Ok(v) && v@ == bs),
                None => (r matches Err(e) && e matches PropertyError::Parse { token, at } && token@
                    == split_lines(c@)[first_bad_bool(split_lines(c@))] && at@
                    == self.location@),
            },
    {
        let c = match content {
            Some(c) => c,
            None => {
                return Err(PropertyError::Io);
            },
        };
        if !matches!(self.tag, TypeTag::BoolList) {
            return Err(self.mismatch(TypeTag::BoolList));
        }
        let elems = split_newlines(c.as_str());
        let ghost es = split_lines(c@);
        let mut out: Vec<bool> = Vec::new();
        let mut i: usize = 0;
        while i < elems.len()
            invariant
                0 <= i <= elems.len(),
                es == elems.deep_view(),
                es.len() == elems.len(),
                matches!(self.tag, TypeTag::BoolList),
                forall|j: int| 0 <= j < i ==> parse_bool_text(#[trigger] es[j]) is Some,
                out@.len() == i,
                forall|j: int| 0 <= j < i ==> #[trigger] out@[j] == parse_bool_text(es[j])->0,
            decreases elems.len() - i,
        {
            proof {
                assert(elems@[i as int]@ == es[i as int]);
            }
            match parse_bool(elems[i].as_str()) {
                Some(v) => out.push(v),
                None => {
                    proof {
                        lemma_first_bad_bool_at(es, i as int);
                        assert(parse_bool_lines(es) is None);
                    }
                    return Err(
                        PropertyError::Parse {
                            token: elems[i].clone(),
                            at: self.location.clone(),
                        },
                    );
                },
            }
            i = i + 1;
        }
        proof {
            assert(parse_bool_lines(es) is Some);
            assert(out@ =~= parse_bool_lines(es)->0);
        }
        Ok(out)
    }

    /// Reads the property as a boolean.
    pub fn get_bool(&self, content: Option<String>) -> (r: Result<bool, PropertyError>)
        ensures
            content is None ==> (r matches Err(e) && e is Io),
            content is Some && self.tag != TypeTag::Bool ==> (r matches Err(e) && e
                matches PropertyError::TypeMismatch { expected, at } && expected == TypeTag::Bool
                && at@ == self.location@),
            content matches Some(c) ==> self.tag == TypeTag::Bool ==> match parse_bool_text(c@) {
                Some(b) => (r matches Ok(v) && v == b),
                None => (r matches Err(e) && e matches PropertyError::Parse { token, at } && token@
                    == c@ && at@ == self.location@),
            },
    {
        let c = match content {
            Some(c) => c,
            None => {
                return Err(PropertyError::Io);
            },
        };
        if !matches!(self.tag, TypeTag::Bool) {
            return Err(self.mismatch(TypeTag::Bool));
        }
        match parse_bool(c.as_str()) {
            Some(v) => Ok(v),
            None => Err(PropertyError::Parse { token: c, at: self.location.clone() }),
        }
    }
}

/// The index of the first element failing the integer grammar; `es.len()`
/// if every element parses.
pub open spec fn first_bad_int(es: Seq<Seq<char>>) -> int
    decreases es.len(),
{
    if es.len() == 0 {
        0
    } else if parse_int_text(es[0]) is None {
        0
    } else {
        1 + first_bad_int(es.skip(1))
    }
}

proof fn lemma_first_bad_int_at(es: Seq<Seq<char>>, i: int)
    requires
        0 <= i < es.len(),
        forall|j: int| 0 <= j < i ==> parse_int_text(#[trigger] es[j]) is Some,
        parse_int_text(es[i]) is None,
    ensures
        first_bad_int(es) == i,
    decreases i,
{
    if i > 0 {
        assert(forall|j: int| 0 <= j < i - 1 ==> #[trigger] es.skip(1)[j] == es[j + 1]);
        assert(es.skip(1)[i - 1] == es[i]);
        lemma_first_bad_int_at(es.skip(1), i - 1);
    }
}

/// The index of the first element failing the boolean grammar.
pub open spec fn first_bad_bool(es: Seq<Seq<char>>) -> int
    decreases es.len(),
{
    if es.len() == 0 {
        0
    } else if parse_bool_text(es[0]) is None {
        0
    } else {
        1 + first_bad_bool(es.skip(1))
    }
}

proof fn lemma_first_bad_bool_at(es: Seq<Seq<char>>, i: int)
    requires
        0 <= i < es.len(),
        forall|j: int| 0 <= j < i ==> parse_bool_text(#[trigger] es[j]) is Some,
        parse_bool_text(es[i]) is None,
    ensures
        first_bad_bool(es) == i,
    decreases i,
{
    if i > 0 {
        assert(forall|j: int| 0 <= j < i - 1 ==> #[trigger] es.skip(1)[j] == es[j + 1]);
        assert(es.skip(1)[i - 1] == es[i]);
        lemma_first_bad_bool_at(es.skip(1), i - 1);
    }
}

/// The index of the first element failing the float grammar.
pub open spec fn first_bad_float(es: Seq<Seq<char>>) -> int
    decreases es.len(),
{
    if es.len() == 0 {
        0
    } else if !float_grammar(es[0]) {
        0
    } else {
        1 + first_bad_float(es.skip(1))
    }
}

proof fn lemma_first_bad_float_at(es: Seq<Seq<char>>, i: int)
    requires
        0 <= i < es.len(),
        forall|j: int| 0 <= j < i ==> float_grammar(#[trigger] es[j]),
        !float_grammar(es[i]),
    ensures
        first_bad_float(es) == i,
    decreases i,
{
    if i > 0 {
        assert(forall|j: int| 0 <= j < i - 1 ==> #[trigger] es.skip(1)[j] == es[j + 1]);
        assert(es.skip(1)[i - 1] == es[i]);
        lemma_first_bad_float_at(es.skip(1), i - 1);
    }
}

/// Whether the stored text of a value reads back as exactly that value.
/// Only a string list carries a condition: no element may hold a newline,
/// and a trailing empty element leaves no trace in the joined text, so the
/// last element (if any) must be nonempty. Every other value reads back
/// unconditionally.
pub open spec fn round_trippable(m: ValueModel) -> bool {
    match m {
        ValueModel::StrList(es) => (forall|i: int|
            0 <= i < es.len() ==> no_newline(#[trigger] es[i])) && (es.len() == 0 || es.last().len()
            > 0),
        _ => true,
    }
}

/// Round-trip: decoding the encoded text of a well-formed value under its
/// own tag yields the value back, for scalars and for lists including the
/// empty list.
pub proof fn lemma_value_round_trip(m: ValueModel)
    requires
        model_wf(m),
        round_trippable(m),
    ensures
        decode_model(tag_of(m), encode_model(m)) == Some(m),
{
    match m {
        ValueModel::Str(_) => {},
        ValueModel::Int(i) => {
            lemma_int_text_round_trip(i);
        },
        ValueModel::Float(_) => {},
        ValueModel::Bool(b) => {
            lemma_bool_text_round_trip(b);
        },
        ValueModel::StrList(es) => {
            lemma_split_join(es);
        },
        ValueModel::IntList(xs) => {
            let ts = Seq::new(xs.len(), |i: int| int_text(xs[i]));
            assert forall|i: int| 0 <= i < ts.len() implies no_newline(#[trigger] ts[i]) && ts[
                i
            ].len() > 0 by {
                lemma_int_text_no_newline(xs[i]);
            }
            lemma_split_join(ts);
            assert forall|i: int| 0 <= i < ts.len() implies parse_int_text(#[trigger] ts[i])
                == Some(xs[i]) by {
                lemma_int_text_round_trip(xs[i]);
            }
            assert(parse_int_lines(ts) is Some);
            assert(parse_int_lines(ts)->0 =~= xs);
        },
        ValueModel::FloatList(ts) => {
            assert forall|i: int| 0 <= i < ts.len() implies no_newline(#[trigger] ts[i]) && ts[
                i
            ].len() > 0 by {
                lemma_float_text_chars(ts[i]);
            }
            lemma_split_join(ts);
            assert(parse_float_lines(ts) == Some(ts));
        },
        ValueModel::BoolList(bs) => {
            let ts = Seq::new(bs.len(), |i: int| bool_text(bs[i]));
            assert forall|i: int| 0 <= i < ts.len() implies no_newline(#[trigger] ts[i]) && ts[
                i
            ].len() > 0 by {
                assert(ts[i] == bool_text(bs[i]));
                assert(ts[i].len() == 1);
                assert(ts[i][0] == '1' || ts[i][0] == '0');
            }
            lemma_split_join(ts);
            assert forall|i: int| 0 <= i < ts.len() implies parse_bool_text(#[trigger] ts[i])
                == Some(bs[i]) by {
                lemma_bool_text_round_trip(bs[i]);
            }
            assert(parse_bool_lines(ts) is Some);
            assert(parse_bool_lines(ts)->0 =~= bs);
        },
    }
}

/// No partial results: one element failing the integer grammar makes the
/// whole integer-list decode fail.
pub proof fn lemma_int_list_no_partial(s: Seq<char>, i: int)
    requires
        0 <= i < split_lines(s).len(),
        parse_int_text(split_lines(s)[i]) is None,
    ensures
        decode_model(TypeTag::IntList, s) is None,
{
}

/// No partial results: one element failing the boolean grammar makes the
/// whole boolean-list decode fail.
pub proof fn lemma_bool_list_no_partial(s: Seq<char>, i: int)
    requires
        0 <= i < split_lines(s).len(),
        parse_bool_text(split_lines(s)[i]) is None,
    ensures
        decode_model(TypeTag::BoolList, s) is None,
{
}

/// No partial results: one element off the float grammar makes the whole
/// float-list decode fail.
pub proof fn lemma_float_list_no_partial(s: Seq<char>, i: int)
    requires
        0 <= i < split_lines(s).len(),
        !float_grammar(split_lines(s)[i]),
    ensures
        decode_model(TypeTag::FloatList, s) is None,
{
}

/// Two newlines in a row read as an empty element: a string list takes it
/// as an empty string, while the numeric and boolean list decodes all fail,
/// an empty text matching none of their scalar grammars.
pub proof fn lemma_blank_element(s: Seq<char>, i: int)
    requires
        0 <= i,
        i + 1 < s.len(),
        s[i] == '\n',
        s[i + 1] == '\n',
    ensures
        decode_model(TypeTag::StrList, s) == Some(ValueModel::StrList(split_lines(s))),
        exists|k: int| 1 <= k < split_lines(s).len() && (#[trigger] split_lines(s)[k]).len() == 0,
        decode_model(TypeTag::IntList, s) is None,
        decode_model(TypeTag::FloatList, s) is None,
        decode_model(TypeTag::BoolList, s) is None,
{
    lemma_consecutive_newlines(s, i);
    let es = split_lines(s);
    let k = choose|k: int| 1 <= k < es.len() && (#[trigger] es[k]).len() == 0;
    assert(1 <= k < es.len() && es[k].len() == 0);
    assert(decode_model(TypeTag::StrList, s) == Some(ValueModel::StrList(es)));
    assert(parse_int_text(es[k]) is None);
    assert(parse_bool_text(es[k]) is None) by {
        assert(es[k] != bool_text(true) && es[k] != bool_text(false)) by {
            assert(bool_text(true).len() == 1 && bool_text(false).len() == 1);
        }
    }
    assert(!float_grammar(es[k]));
    lemma_int_list_no_partial(s, k);
    lemma_bool_list_no_partial(s, k);
    lemma_float_list_no_partial(s, k);
}

} // verus!
