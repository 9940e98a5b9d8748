use vstd::prelude::*;
use vstd::string::StringExecFns;

use crate::status::StatusCode;

verus! {

/// Request of the greeting operation: the caller's name, possibly empty.
#[derive(Debug)]
pub struct HelloRequest {
    pub name: String,
}

/// Reply of the greeting operation.
#[derive(Debug)]
pub struct HelloReply {
    pub message: String,
}

/// The greeting owed for a given name.
pub open spec fn greeting_chars(name: Seq<char>) -> Seq<char> {
    "Hello "@ + name + "!"@
}

/// The stateless greeting service: one unary method, no fields, no state.
#[derive(Debug, Default)]
pub struct MyGreeter {}

impl MyGreeter {
    /// The one unary handler. It has no failure path: every request, the empty
    /// name included, succeeds with the message `"Hello " + name + "!"`.
    pub fn say_hello(&self, request: HelloRequest) -> (result: Result<HelloReply, StatusCode>)
        ensures
            result matches Ok(reply) && reply.message@ == greeting_chars(request.name@),
    {
        let mut message: String = "Hello ".to_owned();
        message.append(request.name.as_str());
        message.append("!");
        proof {
            assert(message@ =~= greeting_chars(request.name@));
        }
        Ok(HelloReply { message })
    }
}

/// Replies never cross between callers: distinct names give distinct
/// greetings, so each concurrent call can only receive the message built from
/// its own request.
pub proof fn lemma_distinct_names_distinct_greetings(a: Seq<char>, b: Seq<char>)
    requires
        a != b,
    ensures
        greeting_chars(a) != greeting_chars(b),
{
    reveal_strlit("Hello ");
    reveal_strlit("!");
    let ga = greeting_chars(a);
    let gb = greeting_chars(b);
    if a.len() == b.len() {
        assert(exists|i: int| 0 <= i < a.len() && a[i] != b[i]) by {
            if forall|i: int| 0 <= i < a.len() ==> a[i] == b[i] {
                assert(a =~= b);
            }
        }
        let i = choose|i: int| 0 <= i < a.len() && a[i] != b[i];
        assert(ga[6 + i] == a[i]);
        assert(gb[6 + i] == b[i]);
    } else {
        assert(ga.len() != gb.len());
    }
}

} // verus!
