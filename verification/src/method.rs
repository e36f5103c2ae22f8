//! HTTP methods: the keyword that a route begins with, and the name of the
//! routing function that registers a handler for it.

use vstd::prelude::*;
use vstd::string::StringExecFns;

verus! {

/// The HTTP methods that a route can be declared for.
#[derive(Clone, Copy, Debug, PartialEq, Eq, Structural)]
pub enum Method {
    Get,
    Post,
    Put,
    Patch,
    Delete,
    Head,
    Options,
    Trace,
    Connect,
}

impl Method {
    /// The keyword that stands for the method in a route, in upper case.
    pub open spec fn keyword(self) -> Seq<char> {
        match self {
            Method::Get => "GET"@,
            Method::Post => "POST"@,
            Method::Put => "PUT"@,
            Method::Patch => "PATCH"@,
            Method::Delete => "DELETE"@,
            Method::Head => "HEAD"@,
            Method::Options => "OPTIONS"@,
            Method::Trace => "TRACE"@,
            Method::Connect => "CONNECT"@,
        }
    }

    /// The name of the routing function of the method: its keyword in lower
    /// case.
    pub open spec fn routing_name(self) -> Seq<char> {
        match self {
            Method::Get => "get"@,
            Method::Post => "post"@,
            Method::Put => "put"@,
            Method::Patch => "patch"@,
            Method::Delete => "delete"@,
            Method::Head => "head"@,
            Method::Options => "options"@,
            Method::Trace => "trace"@,
            Method::Connect => "connect"@,
        }
    }

    /// The method that `keyword` stands for, if it stands for any.
    pub open spec fn of_keyword(keyword: Seq<char>) -> Option<Method> {
        if keyword == "GET"@ {
            Some(Method::Get)
        } else if keyword == "POST"@ {
            Some(Method::Post)
        } else if keyword == "PUT"@ {
            Some(Method::Put)
        } else if keyword == "PATCH"@ {
            Some(Method::Patch)
        } else if keyword == "DELETE"@ {
            Some(Method::Delete)
        } else if keyword == "HEAD"@ {
            Some(Method::Head)
        } else if keyword == "OPTIONS"@ {
            Some(Method::Options)
        } else if keyword == "TRACE"@ {
            Some(Method::Trace)
        } else if keyword == "CONNECT"@ {
            Some(Method::Connect)
        } else {
            None
        }
    }

    /// Decodes a method keyword. Keywords are in upper case; any other text
    /// stands for no method.
    pub fn from_keyword(keyword: &str) -> (r: Option<Method>)
        ensures
            r == Method::of_keyword(keyword@),
    {
        let word: String = String::from_str(keyword);
        if word == String::from_str("GET") {
            Some(Method::Get)
        } else if word == String::from_str("POST") {
            Some(Method::Post)
        } else if word == String::from_str("PUT") {
            Some(Method::Put)
        } else if word == String::from_str("PATCH") {
            Some(Method::Patch)
        } else if word == String::from_str("DELETE") {
            Some(Method::Delete)
        } else if word == String::from_str("HEAD") {
            Some(Method::Head)
        } else if word == String::from_str("OPTIONS") {
            Some(Method::Options)
        } else if word == String::from_str("TRACE") {
            Some(Method::Trace)
        } else if word == String::from_str("CONNECT") {
            Some(Method::Connect)
        } else {
            None
        }
    }

    /// The keyword of the method.
    pub fn to_keyword(&self) -> (r: String)
        ensures
            r@ == self.keyword(),
    {
        match self {
            Method::Get => String::from_str("GET"),
            Method::Post => String::from_str("POST"),
            Method::Put => String::from_str("PUT"),
            Method::Patch => String::from_str("PATCH"),
            Method::Delete => String::from_str("DELETE"),
            Method::Head => String::from_str("HEAD"),
            Method::Options => String::from_str("OPTIONS"),
            Method::Trace => String::from_str("TRACE"),
            Method::Connect => String::from_str("CONNECT"),
        }
    }

    /// The name of the routing function that registers a handler for the
    /// method.
    pub fn to_axum_method_name(&self) -> (r: String)
        ensures
            r@ == self.routing_name(),
    {
        match self {
            Method::Get => String::from_str("get"),
            Method::Post => String::from_str("post"),
            Method::Put => String::from_str("put"),
            Method::Patch => String::from_str("patch"),
            Method::Delete => String::from_str("delete"),
            Method::Head => String::from_str("head"),
            Method::Options => String::from_str("options"),
            Method::Trace => String::from_str("trace"),
            Method::Connect => String::from_str("connect"),
        }
    }
}

/// Reveals what the nine keywords hold.
pub proof fn reveal_keywords()
    ensures
        "GET"@ == seq!['G', 'E', 'T'],
        "POST"@ == seq!['P', 'O', 'S', 'T'],
        "PUT"@ == seq!['P', 'U', 'T'],
        "PATCH"@ == seq!['P', 'A', 'T', 'C', 'H'],
        "DELETE"@ == seq!['D', 'E', 'L', 'E', 'T', 'E'],
        "HEAD"@ == seq!['H', 'E', 'A', 'D'],
        "OPTIONS"@ == seq!['O', 'P', 'T', 'I', 'O', 'N', 'S'],
        "TRACE"@ == seq!['T', 'R', 'A', 'C', 'E'],
        "CONNECT"@ == seq!['C', 'O', 'N', 'N', 'E', 'C', 'T'],
{
    reveal_strlit("GET");
    reveal_strlit("POST");
    reveal_strlit("PUT");
    reveal_strlit("PATCH");
    reveal_strlit("DELETE");
    reveal_strlit("HEAD");
    reveal_strlit("OPTIONS");
    reveal_strlit("TRACE");
    reveal_strlit("CONNECT");
    assert("GET"@ =~= seq!['G', 'E', 'T']);
    assert("POST"@ =~= seq!['P', 'O', 'S', 'T']);
    assert("PUT"@ =~= seq!['P', 'U', 'T']);
    assert("PATCH"@ =~= seq!['P', 'A', 'T', 'C', 'H']);
    assert("DELETE"@ =~= seq!['D', 'E', 'L', 'E', 'T', 'E']);
    assert("HEAD"@ =~= seq!['H', 'E', 'A', 'D']);
    assert("OPTIONS"@ =~= seq!['O', 'P', 'T', 'I', 'O', 'N', 'S']);
    assert("TRACE"@ =~= seq!['T', 'R', 'A', 'C', 'E']);
    assert("CONNECT"@ =~= seq!['C', 'O', 'N', 'N', 'E', 'C', 'T']);
}

/// Reveals what the nine routing names hold.
pub proof fn reveal_routing_names()
    ensures
        "get"@ == seq!['g', 'e', 't'],
        "post"@ == seq!['p', 'o', 's', 't'],
        "put"@ == seq!['p', 'u', 't'],
        "patch"@ == seq!['p', 'a', 't', 'c', 'h'],
        "delete"@ == seq!['d', 'e', 'l', 'e', 't', 'e'],
        "head"@ == seq!['h', 'e', 'a', 'd'],
        "options"@ == seq!['o', 'p', 't', 'i', 'o', 'n', 's'],
        "trace"@ == seq!['t', 'r', 'a', 'c', 'e'],
        "connect"@ == seq!['c', 'o', 'n', 'n', 'e', 'c', 't'],
{
    reveal_strlit("get");
    reveal_strlit("post");
    reveal_strlit("put");
    reveal_strlit("patch");
    reveal_strlit("delete");
    reveal_strlit("head");
    reveal_strlit("options");
    reveal_strlit("trace");
    reveal_strlit("connect");
    assert("get"@ =~= seq!['g', 'e', 't']);
    assert("post"@ =~= seq!['p', 'o', 's', 't']);
    assert("put"@ =~= seq!['p', 'u', 't']);
    assert("patch"@ =~= seq!['p', 'a', 't', 'c', 'h']);
    assert("delete"@ =~= seq!['d', 'e', 'l', 'e', 't', 'e']);
    assert("head"@ =~= seq!['h', 'e', 'a', 'd']);
    assert("options"@ =~= seq!['o', 'p', 't', 'i', 'o', 'n', 's']);
    assert("trace"@ =~= seq!['t', 'r', 'a', 'c', 'e']);
    assert("connect"@ =~= seq!['c', 'o', 'n', 'n', 'e', 'c', 't']);
}

/// A keyword stands for the method whose keyword it is, and for no other:
/// decoding the keyword of a method gives the method back, and whatever
/// decodes to a method is that method's keyword.
pub proof fn keyword_round_trip(m: Method, keyword: Seq<char>)
    ensures
        Method::of_keyword(m.keyword()) == Some(m),
        Method::of_keyword(keyword) == Some(m) ==> keyword == m.keyword(),
{
    reveal_keywords();
}

/// No two methods share a routing name, nor a keyword.
pub proof fn routing_name_injective(a: Method, b: Method)
    ensures
        a.routing_name() == b.routing_name() ==> a == b,
        a.keyword() == b.keyword() ==> a == b,
{
    reveal_keywords();
    reveal_routing_names();
}

} // verus!
