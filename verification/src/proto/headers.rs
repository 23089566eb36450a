//! The header block of an HTTP message, before compression.

use vstd::prelude::*;

verus! {

/// One line of a header block: a field name and its value.
#[derive(Debug, Clone, PartialEq, Eq)]
pub struct Field {
    pub name: Vec<u8>,
    pub value: Vec<u8>,
}

/// A header block: the pseudo-header fields of a request or a response, then
/// the ordinary fields in the order they were given. A block of trailers has
/// no pseudo-header fields.
#[derive(Debug, Clone, PartialEq, Eq)]
pub struct Header {
    pseudo: Vec<Field>,
    fields: Vec<Field>,
    trailer: bool,
}

impl Header {
    /// The pseudo-header fields.
    pub closed spec fn spec_pseudo(&self) -> Seq<Field> {
        self.pseudo@
    }

    /// The ordinary fields, in order.
    pub closed spec fn spec_fields(&self) -> Seq<Field> {
        self.fields@
    }

    /// Whether the block is the trailers of a message.
    pub closed spec fn spec_is_trailer(&self) -> bool {
        self.trailer
    }

    /// Trailers carry no pseudo-header fields.
    pub closed spec fn wf(&self) -> bool {
        self.trailer ==> self.pseudo@.len() == 0
    }

    /// The header block that opens a message.
    pub fn new(pseudo: Vec<Field>, fields: Vec<Field>) -> (h: Header)
        ensures
            h.wf(),
            h.spec_pseudo() == pseudo@,
            h.spec_fields() == fields@,
            !h.spec_is_trailer(),
    {
        Header { pseudo, fields, trailer: false }
    }

    /// The header block that closes a message.
    pub fn trailer(fields: Vec<Field>) -> (h: Header)
        ensures
            h.wf(),
            h.spec_pseudo() == Seq::<Field>::empty(),
            h.spec_fields() == fields@,
            h.spec_is_trailer(),
    {
        Header { pseudo: Vec::new(), fields, trailer: true }
    }

    /// Whether the block is the trailers of a message.
    #[verifier::when_used_as_spec(spec_is_trailer)]
    pub fn is_trailer(&self) -> (t: bool)
        ensures
            t == self.spec_is_trailer(),
    {
        self.trailer
    }

    /// The pseudo-header fields.
    pub fn pseudo(&self) -> (p: &Vec<Field>)
        ensures
            p@ == self.spec_pseudo(),
    {
        &self.pseudo
    }

    /// The ordinary fields, in order.
    pub fn fields(&self) -> (f: &Vec<Field>)
        ensures
            f@ == self.spec_fields(),
    {
        &self.fields
    }
}

} // verus!
