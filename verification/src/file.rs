//! A single-file wrapper around a caller-supplied text codec.
//!
//! [`JataFile`] binds one path to one cached value of a type implementing
//! [`JataType`]. Unlike a typed property, no type tag is persisted and
//! decode failure carries no detail: correctness rests on the caller using
//! the same type for the same path. As everywhere in this crate, the actual
//! file reads and writes stay with the caller: the methods here take the
//! text a read produced and hand back the text to write.
use vstd::prelude::*;

use crate::codec::bool_text;
use crate::codec::bool_to_text;
use crate::codec::int_text;
use crate::codec::int_to_text;
use crate::codec::parse_bool;
use crate::codec::parse_bool_text;
use crate::codec::parse_int;
use crate::codec::parse_int_text;

verus! {

/// A type that can live in a text file: it can be read out of a string
/// representation and written back as one.
pub trait JataType: Sized {
    /// The value a text denotes, or nothing if the text is not a valid
    /// representation.
    spec fn spec_read(representation: Seq<char>) -> Option<Self>;

    /// The text a value is written as.
    spec fn spec_to_str(&self) -> Seq<char>;

    /// Parses a text into the type; `None` if the text is not a correct
    /// representation.
    fn read(representation: String) -> (r: Option<Self>)
        ensures
            r == Self::spec_read(representation@),
    ;

    /// Converts the value to its text.
    fn to_str(&self) -> (r: String)
        ensures
            r@ == self.spec_to_str(),
    ;
}

impl JataType for i64 {
    open spec fn spec_read(representation: Seq<char>) -> Option<i64> {
        match parse_int_text(representation) {
            Some(i) => Some(i as i64),
            None => None,
        }
    }

    open spec fn spec_to_str(&self) -> Seq<char> {
        int_text(*self as int)
    }

    fn read(representation: String) -> (r: Option<i64>) {
        parse_int(representation.as_str())
    }

    fn to_str(&self) -> (r: String) {
        int_to_text(*self)
    }
}

impl JataType for bool {
    open spec fn spec_read(representation: Seq<char>) -> Option<bool> {
        parse_bool_text(representation)
    }

    open spec fn spec_to_str(&self) -> Seq<char> {
        bool_text(*self)
    }

    fn read(representation: String) -> (r: Option<bool>) {
        parse_bool(representation.as_str())
    }

    fn to_str(&self) -> (r: String) {
        bool_to_text(*self)
    }
}

/// A path and what is currently believed to be the value of the file there.
/// The cache is refreshed only by [`JataFile::reset_value`] and overwritten
/// by [`JataFile::set_value`]; external changes to the file are invisible
/// until the next reset.
pub struct JataFile<T: JataType + Default> {
    /// The backing file's path.
    path: String,
    /// The last value read or set; may be stale relative to the disk.
    value: T,
}

impl<T: JataType + Default> JataFile<T> {
    /// The path this handle is bound to.
    pub closed spec fn spec_path(&self) -> Seq<char> {
        self.path@
    }

    /// The cached value.
    pub closed spec fn spec_value(&self) -> T {
        self.value
    }

    /// A handle with an empty path and the type's default value.
    pub fn new() -> (r: Self)
        ensures
            r.spec_path() == Seq::<char>::empty(),
            call_ensures(T::default, (), r.spec_value()),
    {
        JataFile { path: String::new(), value: T::default() }
    }

    /// A handle bound to a path, still carrying the type's default value.
    pub fn at_path(path: String) -> (r: Self)
        ensures
            r.spec_path() == path@,
            call_ensures(T::default, (), r.spec_value()),
    {
        JataFile { path, value: T::default() }
    }

    /// The path, for the caller to read or write the backing file.
    pub fn path(&self) -> (r: &String)
        ensures
            r@ == self.spec_path(),
    {
        &self.path
    }

    /// The cached value.
    pub fn value(&self) -> (r: &T)
        ensures
            *r == self.spec_value(),
    {
        &self.value
    }

    /// Checks and returns the value the file holds, without touching the
    /// cache. `content` is what a fresh read of the file produced, `None`
    /// when the read failed; decode failure and read failure collapse to
    /// `None` alike.
    pub fn check_value(self, content: Option<String>) -> (r: Option<T>)
        ensures
            content is None ==> r is None,
            content matches Some(s) ==> r == T::spec_read(s@),
    {
        match content {
            Some(s) => T::read(s),
            None => None,
        }
    }

    /// Re-reads the cached value from the file's text: on success the cache
    /// takes the decoded value, on any failure it is left exactly as it
    /// was. `content` is what a fresh read of the file produced, `None`
    /// when the read failed.
    pub fn reset_value(&mut self, content: Option<String>) -> (r: Option<()>)
        ensures
            final(self).spec_path() == old(self).spec_path(),
            content is None ==> (r is None && final(self).spec_value() == old(
                self,
            ).spec_value()),
            content matches Some(s) ==> match T::spec_read(s@) {
                Some(v) => r is Some && final(self).spec_value() == v,
                None => r is None && final(self).spec_value() == old(self).spec_value(),
            },
    {
        match content {
            Some(s) => match T::read(s) {
                Some(t) => {
                    self.value = t;
                    Some(())
                },
                None => None,
            },
            None => None,
        }
    }

    /// Replaces the cached value and returns the text the caller must
    /// write to the file. The cache is updated before any write happens:
    /// if the caller's write then fails, memory and disk diverge until a
    /// successful reset or write, exactly as the design accepts.
    pub fn set_value(&mut self, value: T) -> (rep: String)
        ensures
            final(self).spec_path() == old(self).spec_path(),
            final(self).spec_value() == value,
            rep@ == value.spec_to_str(),
    {
        self.value = value;
        self.value.to_str()
    }
}

impl<T: JataType + Default> Default for JataFile<T> {
    /// Same as [`JataFile::new`]: an empty path and the default value.
    fn default() -> (r: Self)
        ensures
            r.spec_path() == Seq::<char>::empty(),
            call_ensures(T::default, (), r.spec_value()),
    {
        JataFile::new()
    }
}

} // verus!
