//! A generic tagged application error: a coarse kind, a short
//! human-readable note, and open string-to-string metadata for diagnostic
//! context.

use vstd::prelude::*;
use vstd::string::StringExecFns;

verus! {

/// The coarse kind of a failure: technical, caused by user input, or a
/// missing piece of information.
#[derive(Clone, Copy, Debug, PartialEq, Eq, Structural)]
pub enum ErrorCode {
    Tech,
    User,
    NotFound,
}

/// A tagged error value: a kind, a note, and metadata entries.
#[derive(Clone, Debug)]
pub struct Error {
    code: ErrorCode,
    note: String,
    meta: Vec<(String, String)>,
}

/// The note used when none is given, chosen by the kind.
pub open spec fn spec_default_note(code: ErrorCode) -> Seq<char> {
    match code {
        ErrorCode::Tech => "A technical issue occured. Please try again later."@,
        ErrorCode::User => "An issue occured due to your input."@,
        ErrorCode::NotFound => "The information you seek was not found."@,
    }
}

/// The metadata entries read as a map: a later entry with the same key
/// shadows an earlier one.
pub open spec fn meta_map_of(entries: Seq<(Seq<char>, Seq<char>)>) -> Map<Seq<char>, Seq<char>>
    decreases entries.len(),
{
    if entries.len() == 0 {
        Map::empty()
    } else {
        meta_map_of(entries.drop_last()).insert(entries.last().0, entries.last().1)
    }
}

impl Error {
    /// The kind of this error.
    pub closed spec fn spec_code(&self) -> ErrorCode {
        self.code
    }

    /// The note of this error.
    pub closed spec fn spec_note(&self) -> Seq<char> {
        self.note@
    }

    /// The metadata entries of this error, in the order they were added.
    pub closed spec fn spec_meta(&self) -> Seq<(Seq<char>, Seq<char>)> {
        Seq::new(self.meta@.len(), |i: int| (self.meta@[i].0@, self.meta@[i].1@))
    }

    /// The metadata of this error read as a map.
    pub open spec fn spec_meta_map(&self) -> Map<Seq<char>, Seq<char>> {
        meta_map_of(self.spec_meta())
    }

    /// Builds an error of the given kind; an empty note is replaced by the
    /// kind's default note. No metadata yet.
    pub fn new(note: &str, code: ErrorCode) -> (r: Self)
        ensures
            r.spec_code() == code,
            r.spec_note() == if note@.len() > 0 {
                note@
            } else {
                spec_default_note(code)
            },
            r.spec_meta() =~= Seq::<(Seq<char>, Seq<char>)>::empty(),
    {
        let text = if !note.is_empty() {
            String::from_str(note)
        } else {
            match code {
                ErrorCode::Tech => String::from_str(
                    "A technical issue occured. Please try again later.",
                ),
                ErrorCode::User => String::from_str("An issue occured due to your input."),
                ErrorCode::NotFound => String::from_str(
                    "The information you seek was not found.",
                ),
            }
        };
        Error { code, note: text, meta: Vec::new() }
    }

    /// An error caused by the user's input.
    pub fn user(note: &str) -> (r: Self)
        ensures
            r.spec_code() == ErrorCode::User,
            r.spec_note() == if note@.len() > 0 {
                note@
            } else {
                spec_default_note(ErrorCode::User)
            },
            r.spec_meta() =~= Seq::<(Seq<char>, Seq<char>)>::empty(),
    {
        Self::new(note, ErrorCode::User)
    }

    /// A technical error.
    pub fn tech(note: &str) -> (r: Self)
        ensures
            r.spec_code() == ErrorCode::Tech,
            r.spec_note() == if note@.len() > 0 {
                note@
            } else {
                spec_default_note(ErrorCode::Tech)
            },
            r.spec_meta() =~= Seq::<(Seq<char>, Seq<char>)>::empty(),
    {
        Self::new(note, ErrorCode::Tech)
    }

    /// An error for information that was not found.
    pub fn notfound(note: &str) -> (r: Self)
        ensures
            r.spec_code() == ErrorCode::NotFound,
            r.spec_note() == if note@.len() > 0 {
                note@
            } else {
                spec_default_note(ErrorCode::NotFound)
            },
            r.spec_meta() =~= Seq::<(Seq<char>, Seq<char>)>::empty(),
    {
        Self::new(note, ErrorCode::NotFound)
    }

    /// Adds a metadata entry in place; read as a map, the new entry wins
    /// over any earlier entry with the same key.
    pub fn add_meta(&mut self, key: &str, val: &str)
        ensures
            final(self).spec_code() == old(self).spec_code(),
            final(self).spec_note() == old(self).spec_note(),
            final(self).spec_meta() == old(self).spec_meta().push((key@, val@)),
            final(self).spec_meta_map() == old(self).spec_meta_map().insert(key@, val@),
    {
        self.meta.push((String::from_str(key), String::from_str(val)));
        proof {
            assert(self.spec_meta() =~= old(self).spec_meta().push((key@, val@)));
            assert(self.spec_meta().drop_last() =~= old(self).spec_meta());
        }
    }

    /// Adds a metadata entry and hands the error back, for chaining.
    pub fn add_meta_x(self, key: &str, val: &str) -> (r: Self)
        ensures
            r.spec_code() == self.spec_code(),
            r.spec_note() == self.spec_note(),
            r.spec_meta() == self.spec_meta().push((key@, val@)),
            r.spec_meta_map() == self.spec_meta_map().insert(key@, val@),
    {
        let mut out = self;
        out.add_meta(key, val);
        out
    }

    /// Whether any metadata entry has been added.
    pub fn has_meta(&self) -> (r: bool)
        ensures
            r == (self.spec_meta().len() > 0),
    {
        self.meta.len() > 0
    }

    /// The kind of this error, as a value.
    pub fn kind(&self) -> (r: ErrorCode)
        ensures
            r == self.spec_code(),
    {
        self.code
    }

    /// The note of this error, as text.
    pub fn note_text(&self) -> (r: String)
        ensures
            r@ == self.spec_note(),
    {
        String::from_str(self.note.as_str())
    }

    /// How many metadata entries this error holds.
    pub fn meta_len(&self) -> (r: usize)
        ensures
            r == self.spec_meta().len(),
    {
        self.meta.len()
    }

    /// The metadata entry at the given position.
    pub fn meta_at(&self, i: usize) -> (r: (String, String))
        requires
            i < self.spec_meta().len(),
        ensures
            r.0@ == self.spec_meta()[i as int].0,
            r.1@ == self.spec_meta()[i as int].1,
    {
        let p = &self.meta[i];
        (String::from_str(p.0.as_str()), String::from_str(p.1.as_str()))
    }
}

} // verus!
