//! The response to a command: a name, the type tags and names of the
//! fields, and the raw bytes that hold the fields' values.

use crate::field::{
    decode_fields, encoding_of, fields_of, formats_of, lemma_fields_length,
    lemma_fields_round_trip, total_width, DataType, FieldValue,
};
use crate::status::DecodeError;
use crate::text::{decoded, texts_of, tokens};
use vstd::prelude::*;
use vstd::utf8::*;

verus! {

/// What a sensor module answered, as far as the commands issued so far have
/// filled it in.
#[derive(Debug)]
pub struct CmdReturn {
    /// The sensor's name.
    pub name: String,
    /// The type tag of each field, in the order of the fields.
    pub format: Vec<String>,
    /// The name of each field, in the order of the fields.
    pub data_names: Vec<String>,
    /// The bytes last received: a text list or the encoded fields.
    pub raw_bytes: Vec<u8>,
}

/// The content of a `CmdReturn`.
pub struct Response {
    pub name: Seq<char>,
    pub format: Seq<Seq<char>>,
    pub data_names: Seq<Seq<char>>,
    pub raw_bytes: Seq<u8>,
}

impl View for CmdReturn {
    type V = Response;

    open spec fn view(&self) -> Response {
        Response {
            name: self.name@,
            format: self.format.deep_view(),
            data_names: self.data_names.deep_view(),
            raw_bytes: self.raw_bytes@,
        }
    }
}

/// The names that a text list holds: its tokens read as UTF-8, or
/// `InvalidUtf8` where the list is not valid UTF-8.
pub open spec fn names_in(raw: Seq<u8>) -> Result<Seq<Seq<char>>, DecodeError> {
    if valid_utf8(raw) {
        Ok(decoded(tokens(raw)))
    } else {
        Err(DecodeError::InvalidUtf8)
    }
}

/// True when each of the given tags names a field type.
pub open spec fn all_named(tags: Seq<Seq<char>>) -> bool {
    forall|i: int| 0 <= i < tags.len() ==> DataType::named(#[trigger] tags[i]) is Some
}

/// The type tags that a text list holds: its tokens read as UTF-8, each of
/// which has to name a field type, or else `UnknownTypeTag`.
pub open spec fn formats_in(raw: Seq<u8>) -> Result<Seq<Seq<char>>, DecodeError> {
    match names_in(raw) {
        Err(e) => Err(e),
        Ok(tags) => if all_named(tags) {
            Ok(tags)
        } else {
            Err(DecodeError::UnknownTypeTag)
        },
    }
}

impl Response {
    /// The response that nothing has been filled into.
    pub open spec fn empty() -> Response {
        Response {
            name: Seq::empty(),
            format: Seq::empty(),
            data_names: Seq::empty(),
            raw_bytes: Seq::empty(),
        }
    }

    /// The typed values of the fields: what `raw_bytes` hold under the type
    /// tags in `format`. Where both type tags and names are present, their
    /// numbers have to agree, or else the result is `FieldCountMismatch`.
    pub open spec fn values(self) -> Result<Seq<FieldValue>, DecodeError> {
        match fields_of(self.format, self.raw_bytes) {
            Err(e) => Err(e),
            Ok(values) => if self.format.len() != 0 && self.data_names.len() != 0
                && self.format.len() != self.data_names.len() {
                Err(DecodeError::FieldCountMismatch)
            } else {
                Ok(values)
            },
        }
    }
}

/// Round trip: a response that holds the encoding of some values under the
/// values' own type tags, and no names or one name for each value, decodes
/// to exactly those values.
pub proof fn lemma_values_round_trip(response: Response, values: Seq<FieldValue>)
    requires
        response.format == formats_of(values),
        response.raw_bytes == encoding_of(values),
        response.data_names.len() == 0 || response.data_names.len() == values.len(),
    ensures
        response.values() == Ok::<Seq<FieldValue>, DecodeError>(values),
{
    lemma_fields_round_trip(values);
}

/// A response whose raw bytes are fewer than its type tags ask for decodes
/// to `BufferUnderrun`, whatever else it holds.
pub proof fn lemma_values_underrun(response: Response)
    requires
        all_named(response.format),
        response.raw_bytes.len() < total_width(response.format),
    ensures
        response.values() == Err::<Seq<FieldValue>, DecodeError>(DecodeError::BufferUnderrun),
{
    lemma_fields_length(response.format, response.raw_bytes);
}

/// Decoding succeeds exactly when the raw bytes are as many as the type
/// tags ask for and the names, if there are any beside the tags, are as many
/// as the tags; it then yields one value for each tag.
pub proof fn lemma_values_ok(response: Response)
    requires
        all_named(response.format),
    ensures
        response.values() is Ok <==> response.raw_bytes.len() == total_width(response.format) && (
        response.format.len() == 0 || response.data_names.len() == 0
            || response.format.len() == response.data_names.len()),
        response.values() is Ok ==> response.values()->Ok_0.len() == response.format.len(),
{
    lemma_fields_length(response.format, response.raw_bytes);
}

impl CmdReturn {
    /// A response that nothing has been filled into.
    pub fn new() -> (ret: CmdReturn)
        ensures
            ret@ == Response::empty(),
    {
        let ret = CmdReturn {
            name: String::new(),
            format: Vec::new(),
            data_names: Vec::new(),
            raw_bytes: Vec::new(),
        };
        assert(ret.format.deep_view() =~= Seq::<Seq<char>>::empty());
        assert(ret.data_names.deep_view() =~= Seq::<Seq<char>>::empty());
        ret
    }

    /// Replaces the raw bytes.
    pub fn set_raw(&mut self, bytes: Vec<u8>)
        ensures
            final(self)@ == (Response { raw_bytes: bytes@, ..old(self)@ }),
    {
        self.raw_bytes = bytes;
    }

    /// Reads the raw bytes as a list of field names and appends the names to
    /// `data_names`. On an error nothing changes.
    pub fn parse_raw_to_dnames(&mut self) -> (r: Result<(), DecodeError>)
        ensures
            match r {
                Ok(()) => names_in(old(self)@.raw_bytes) matches Ok(names) && final(self)@ == (
                Response { data_names: old(self)@.data_names + names, ..old(self)@ }),
                Err(e) => names_in(old(self)@.raw_bytes) == Err::<Seq<Seq<char>>, DecodeError>(e)
                    && *final(self) == *old(self),
            },
    {
        match texts_of(self.raw_bytes.as_slice()) {
            None => Err(DecodeError::InvalidUtf8),
            Some(names) => {
                let mut names = names;
                let ghost before = self.data_names@;
                let ghost added = names@;
                self.data_names.append(&mut names);
                assert(self.data_names.deep_view() =~= before.map_values(|s: String| s@)
                    + added.map_values(|s: String| s@));
                assert(before.map_values(|s: String| s@) =~= old(self).data_names.deep_view());
                assert(added.map_values(|s: String| s@) =~= decoded(tokens(old(self)@.raw_bytes)));
                Ok(())
            },
        }
    }

    /// Reads the raw bytes as a list of type tags and appends the tags to
    /// `format`. On an error nothing changes.
    pub fn parse_raw_to_format(&mut self) -> (r: Result<(), DecodeError>)
        ensures
            match r {
                Ok(()) => formats_in(old(self)@.raw_bytes) matches Ok(tags) && final(self)@ == (
                Response { format: old(self)@.format + tags, ..old(self)@ }),
                Err(e) => formats_in(old(self)@.raw_bytes) == Err::<Seq<Seq<char>>, DecodeError>(
                    e,
                ) && *final(self) == *old(self),
            },
    {
        match texts_of(self.raw_bytes.as_slice()) {
            None => Err(DecodeError::InvalidUtf8),
            Some(tags) => {
                let mut tags = tags;
                let ghost names = tags.deep_view();
                let mut i: usize = 0;
                while i < tags.len()
                    invariant
                        i <= tags.len(),
                        names == tags.deep_view(),
                        names_in(old(self)@.raw_bytes) == Ok::<Seq<Seq<char>>, DecodeError>(names),
                        forall|j: int| 0 <= j < i ==> DataType::named(#[trigger] names[j]) is Some,
                        *self == *old(self),
                    decreases tags.len() - i,
                {
                    assert(names[i as int] == tags[i as int]@);
                    if DataType::of_name(tags[i].as_str()).is_none() {
                        assert(!all_named(names));
                        return Err(DecodeError::UnknownTypeTag);
                    }
                    i += 1;
                }
                let ghost before = self.format@;
                let ghost added = tags@;
                self.format.append(&mut tags);
                assert(self.format.deep_view() =~= before.map_values(|s: String| s@)
                    + added.map_values(|s: String| s@));
                assert(before.map_values(|s: String| s@) =~= old(self).format.deep_view());
                assert(added.map_values(|s: String| s@) =~= names);
                Ok(())
            },
        }
    }

    /// Decodes the raw bytes into the typed values of the fields.
    pub fn decode_values(&self) -> (r: Result<Vec<FieldValue>, DecodeError>)
        ensures
            match r {
                Ok(values) => self@.values() == Ok::<Seq<FieldValue>, DecodeError>(values@),
                Err(e) => self@.values() == Err::<Seq<FieldValue>, DecodeError>(e),
            },
    {
        let values = decode_fields(&self.format, &self.raw_bytes)?;
        let tags = self.format.len();
        let names = self.data_names.len();
        if tags != 0 && names != 0 && tags != names {
            return Err(DecodeError::FieldCountMismatch);
        }
        Ok(values)
    }
}

} // verus!
