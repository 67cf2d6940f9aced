//! The body of a request.

use crate::form::MyForm;
use crate::fragment::{fragment_bytes, fragment_clone, fragment_view};
use vstd::prelude::*;
use vstd::std_specs::convert::FromSpecImpl;

verus! {

/// An HTTP body.
#[derive(Debug)]
pub enum Body {
    /// A form, which the transport encodes part by part.
    Multipart(MyForm),
    /// A body of a known size.
    Bytes(bytes::Bytes),
}

impl Body {
    /// The size that is known of the body: the number of its bytes, and
    /// nothing for a form, which the transport measures itself.
    pub open spec fn spec_len(&self) -> nat {
        match self {
            Body::Multipart(_) => 0,
            Body::Bytes(bytes) => fragment_view(*bytes).len(),
        }
    }

    /// The size that is known of the body.
    pub fn len(&self) -> (n: usize)
        ensures
            n == self.spec_len(),
    {
        match self {
            Body::Multipart(_) => 0,
            Body::Bytes(bytes) => fragment_bytes(bytes).len(),
        }
    }

    /// Whether nothing is known to be in the body.
    pub fn is_empty(&self) -> (empty: bool)
        ensures
            empty == (self.spec_len() == 0),
    {
        self.len() == 0
    }
}

impl Clone for Body {
    /// A body of the same kind; one of bytes holds the same bytes.
    fn clone(&self) -> (copy: Body)
        ensures
            copy.spec_len() == self.spec_len(),
            copy is Multipart <==> self is Multipart,
            self matches Body::Bytes(bytes) ==> copy matches Body::Bytes(same) && fragment_view(
                same,
            ) == fragment_view(*bytes),
    {
        match self {
            Body::Multipart(form) => Body::Multipart(form.clone()),
            Body::Bytes(bytes) => Body::Bytes(fragment_clone(bytes)),
        }
    }
}

impl From<MyForm> for Body {
    fn from(my_form: MyForm) -> (body: Body) {
        Body::Multipart(my_form)
    }
}

impl FromSpecImpl<MyForm> for Body {
    open spec fn obeys_from_spec() -> bool {
        true
    }

    open spec fn from_spec(my_form: MyForm) -> Body {
        Body::Multipart(my_form)
    }
}

impl From<bytes::Bytes> for Body {
    fn from(bytes: bytes::Bytes) -> (body: Body) {
        Body::Bytes(bytes)
    }
}

impl FromSpecImpl<bytes::Bytes> for Body {
    open spec fn obeys_from_spec() -> bool {
        true
    }

    open spec fn from_spec(bytes: bytes::Bytes) -> Body {
        Body::Bytes(bytes)
    }
}

} // verus!
