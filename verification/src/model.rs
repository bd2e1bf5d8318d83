use vstd::prelude::*;
use crate::text::string_of;

verus! {

/// The model a request goes to.
pub struct Model {
    pub client_name: String,
    pub name: String,
    pub real_name: Option<String>,
    pub max_output_tokens: Option<i64>,
    pub require_max_tokens: bool,
    pub no_stream: bool,
}

impl Model {
    /// A model known by name only.
    pub fn new(client_name: &str, name: &str) -> (res: Self)
        ensures
            res.client_name@ == client_name@,
            res.name@ == name@,
            res.real_name is None,
            res.max_output_tokens is None,
            !res.require_max_tokens,
            !res.no_stream,
    {
        Model {
            client_name: string_of(client_name),
            name: string_of(name),
            real_name: None,
            max_output_tokens: None,
            require_max_tokens: false,
            no_stream: false,
        }
    }

    /// A copy of the model.
    pub fn duplicate(&self) -> (res: Self)
        ensures
            res == *self,
    {
        Model {
            client_name: self.client_name.clone(),
            name: self.name.clone(),
            real_name: match &self.real_name {
                Some(r) => Some(r.clone()),
                None => None,
            },
            max_output_tokens: self.max_output_tokens,
            require_max_tokens: self.require_max_tokens,
            no_stream: self.no_stream,
        }
    }

    pub open spec fn spec_real_name(&self) -> Seq<char> {
        match self.real_name {
            Some(r) => r@,
            None => self.name@,
        }
    }

    /// The name the provider knows the model by.
    pub fn real_name(&self) -> (res: &str)
        ensures
            res@ == self.spec_real_name(),
    {
        match &self.real_name {
            Some(r) => r.as_str(),
            None => self.name.as_str(),
        }
    }

    pub open spec fn spec_max_tokens_param(&self) -> Option<i64> {
        if self.require_max_tokens {
            self.max_output_tokens
        } else {
            None
        }
    }

    /// The `max_tokens` value to send, when the provider needs one.
    pub fn max_tokens_param(&self) -> (res: Option<i64>)
        ensures
            res == self.spec_max_tokens_param(),
    {
        if self.require_max_tokens {
            self.max_output_tokens
        } else {
            None
        }
    }
}

} // verus!
