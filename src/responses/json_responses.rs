use vstd::prelude::*;

verus! {

/// A status and a message, the two fields of a structured payload.
pub struct JsonResponse {
    status: String,
    message: String,
}

impl JsonResponse {
    pub closed spec fn spec_status(&self) -> Seq<char> {
        self.status@
    }

    pub closed spec fn spec_message(&self) -> Seq<char> {
        self.message@
    }

    pub fn new(status: &str, message: &str) -> (r: Self)
        ensures
            r.spec_status() == status@,
            r.spec_message() == message@,
    {
        JsonResponse { status: status.to_owned(), message: message.to_owned() }
    }

    pub fn status(&self) -> (r: &str)
        ensures
            r@ == self.spec_status(),
    {
        self.status.as_str()
    }

    pub fn message(&self) -> (r: &str)
        ensures
            r@ == self.spec_message(),
    {
        self.message.as_str()
    }
}

} // verus!
