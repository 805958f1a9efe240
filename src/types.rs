//! Requests and commitments.

use vstd::prelude::*;
use crate::assoc::{keys_unique, lemma_map_of_empty, lemma_map_of_push, map_of};

verus! {

/// What a request is: who registered it, what it asks and its token context.
pub ghost struct RequestModel {
    pub caller: Seq<char>,
    pub request_spec: Seq<char>,
    pub token_address: Seq<char>,
}

/// What one oracle's commitment slot holds.
pub ghost struct CommitModel {
    pub commit_shrouded: Seq<char>,
    pub reveal_answer: Seq<char>,
    pub reveal_suffix: Seq<char>,
    pub reveal_type: Seq<char>,
}

impl RequestModel {
    /// The request as a JSON object: field name to text.
    pub open spec fn fields(self) -> Map<Seq<char>, Seq<char>> {
        map![
            "caller"@ => self.caller,
            "request_spec"@ => self.request_spec,
            "token_address"@ => self.token_address,
        ]
    }
}

impl CommitModel {
    /// The commitment as a JSON object: field name to text.
    pub open spec fn fields(self) -> Map<Seq<char>, Seq<char>> {
        map![
            "commit_shrouded"@ => self.commit_shrouded,
            "reveal_answer"@ => self.reveal_answer,
            "reveal_suffix"@ => self.reveal_suffix,
            "reveal_type"@ => self.reveal_type,
        ]
    }

    /// The slot as it is when an oracle first stakes: every field empty.
    pub open spec fn empty() -> CommitModel {
        CommitModel {
            commit_shrouded: Seq::empty(),
            reveal_answer: Seq::empty(),
            reveal_suffix: Seq::empty(),
            reveal_type: Seq::empty(),
        }
    }
}

/// Appends the field `name` with text `value` to an object under construction.
fn push_field(v: &mut Vec<(String, String)>, name: &str, value: &String)
    requires
        keys_unique(old(v)@),
        !map_of(old(v)@).contains_key(name@),
    ensures
        keys_unique(final(v)@),
        map_of(final(v)@) == map_of(old(v)@).insert(name@, value@),
{
    let e = (name.to_owned(), value.clone());
    proof {
        lemma_map_of_push(v@, |x: String| x@, e);
    }
    v.push(e);
}

/// A registered question.
pub struct OracleRequest {
    pub caller: String,
    pub request_spec: String,
    pub token_address: String,
}

impl View for OracleRequest {
    type V = RequestModel;

    open spec fn view(&self) -> RequestModel {
        RequestModel {
            caller: self.caller@,
            request_spec: self.request_spec@,
            token_address: self.token_address@,
        }
    }
}

impl OracleRequest {
    /// The request's fields, by name, in the order they are declared.
    pub fn to_fields(&self) -> (r: Vec<(String, String)>)
        ensures
            keys_unique(r@),
            map_of(r@) == self@.fields(),
    {
        proof {
            reveal_strlit("caller");
            reveal_strlit("request_spec");
            reveal_strlit("token_address");
            assert("caller"@.len() == 6 && "request_spec"@.len() == 12);
            assert("token_address"@.len() == 13);
        }
        let mut v: Vec<(String, String)> = Vec::new();
        proof {
            lemma_map_of_empty(v@, |x: String| x@);
        }
        push_field(&mut v, "caller", &self.caller);
        push_field(&mut v, "request_spec", &self.request_spec);
        push_field(&mut v, "token_address", &self.token_address);
        assert(map_of(v@) =~= self@.fields());
        v
    }
}

/// One oracle's commitment to a request.
pub struct CommitReveal {
    pub commit_shrouded: String,
    pub reveal_answer: String,
    pub reveal_suffix: String,
    pub reveal_type: String,
}

impl View for CommitReveal {
    type V = CommitModel;

    open spec fn view(&self) -> CommitModel {
        CommitModel {
            commit_shrouded: self.commit_shrouded@,
            reveal_answer: self.reveal_answer@,
            reveal_suffix: self.reveal_suffix@,
            reveal_type: self.reveal_type@,
        }
    }
}

impl Default for CommitReveal {
    /// An empty commitment slot, as `new` makes.
    fn default() -> (r: CommitReveal)
        ensures
            r@ == CommitModel::empty(),
    {
        CommitReveal::new()
    }
}

impl CommitReveal {
    /// The commitment's fields, by name, in the order they are declared.
    pub fn to_fields(&self) -> (r: Vec<(String, String)>)
        ensures
            keys_unique(r@),
            map_of(r@) == self@.fields(),
    {
        proof {
            reveal_strlit("commit_shrouded");
            reveal_strlit("reveal_answer");
            reveal_strlit("reveal_suffix");
            reveal_strlit("reveal_type");
            assert("commit_shrouded"@.len() == 15 && "reveal_type"@.len() == 11);
            assert("reveal_answer"@[7] != "reveal_suffix"@[7]);
        }
        let mut v: Vec<(String, String)> = Vec::new();
        proof {
            lemma_map_of_empty(v@, |x: String| x@);
        }
        push_field(&mut v, "commit_shrouded", &self.commit_shrouded);
        push_field(&mut v, "reveal_answer", &self.reveal_answer);
        push_field(&mut v, "reveal_suffix", &self.reveal_suffix);
        push_field(&mut v, "reveal_type", &self.reveal_type);
        assert(map_of(v@) =~= self@.fields());
        v
    }

    /// An empty commitment slot.
    pub fn new() -> (r: CommitReveal)
        ensures
            r@ == CommitModel::empty(),
    {
        CommitReveal {
            commit_shrouded: String::new(),
            reveal_answer: String::new(),
            reveal_suffix: String::new(),
            reveal_type: String::new(),
        }
    }
}

} // verus!
