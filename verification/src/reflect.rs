use vstd::prelude::*;
use vstd::bytes::lemma_auto_spec_u32_to_from_le_bytes;
use vstd::utf8::{encode_utf8, encode_utf8_decode_utf8, encode_utf8_valid_utf8};

use crate::codec::{
    lemma_chunk_round_trip, lemma_envelope_round_trip, put_chunk, spec_chunk, spec_envelope,
    spec_take_chunk, DecodeError,
};
use crate::greeting::{greeting_chars, lemma_distinct_names_distinct_greetings};
use crate::rpc::{
    spec_descriptor_lookup, spec_handle_frame, spec_lookup, spec_method_match, spec_service_list,
    MethodEntry, RpcHandler, RpcOutcomeSpec, ServiceEntry,
};
use crate::text::{lemma_encode_utf8_injective, lemma_encode_utf8_len};

verus! {

/// The embedded schema descriptor of the greeting service: an opaque blob
/// naming the service, its method and the two message shapes, each length-
/// delimited. It is built once at startup and only ever read after that.
pub open spec fn spec_greeter_descriptor() -> Seq<u8> {
    spec_chunk(encode_utf8("helloworld.Greeter"@)) + spec_chunk(encode_utf8("SayHello"@))
        + spec_chunk(encode_utf8("HelloRequest.name:string"@)) + spec_chunk(
        encode_utf8("HelloReply.message:string"@),
    )
}

/// The length of a literal's UTF-8 encoding is bounded by four bytes per
/// character, so every name this module embeds fits a chunk.
proof fn lemma_literal_fits(s: &str, n: int)
    requires
        s@.len() == n,
        4 * n <= u32::MAX,
    ensures
        encode_utf8(s@).len() <= u32::MAX,
{
    lemma_encode_utf8_len(s@);
}

/// Renders the embedded descriptor blob of the greeting service.
pub fn greeter_descriptor() -> (r: Vec<u8>)
    ensures
        r@ == spec_greeter_descriptor(),
        r@.len() > 0,
{
    proof {
        reveal_strlit("helloworld.Greeter");
        reveal_strlit("SayHello");
        reveal_strlit("HelloRequest.name:string");
        reveal_strlit("HelloReply.message:string");
        lemma_literal_fits("helloworld.Greeter", 18);
        lemma_literal_fits("SayHello", 8);
        lemma_literal_fits("HelloRequest.name:string", 24);
        lemma_literal_fits("HelloReply.message:string", 25);
        lemma_auto_spec_u32_to_from_le_bytes();
    }
    let mut out: Vec<u8> = Vec::new();
    put_chunk(&mut out, "helloworld.Greeter".as_bytes());
    put_chunk(&mut out, "SayHello".as_bytes());
    put_chunk(&mut out, "HelloRequest.name:string".as_bytes());
    put_chunk(&mut out, "HelloReply.message:string".as_bytes());
    proof {
        assert(out@ =~= spec_greeter_descriptor());
    }
    out
}

/// The shape of the greeting service's registration entry.
pub open spec fn is_greeter_entry(entry: ServiceEntry) -> bool {
    &&& entry.name@ == "helloworld.Greeter"@
    &&& entry.methods@.len() == 1
    &&& entry.methods@[0].name@ == "SayHello"@
    &&& entry.methods@[0].handler == RpcHandler::SayHello
    &&& entry.descriptor@ == spec_greeter_descriptor()
}

/// The shape of the reflection pseudo-service's registration entry. It serves
/// schema queries and embeds no descriptor of its own.
pub open spec fn is_reflection_entry(entry: ServiceEntry) -> bool {
    &&& entry.name@ == "reflection.Reflection"@
    &&& entry.methods@.len() == 2
    &&& entry.methods@[0].name@ == "ListServices"@
    &&& entry.methods@[0].handler == RpcHandler::ListServices
    &&& entry.methods@[1].name@ == "GetDescriptor"@
    &&& entry.methods@[1].handler == RpcHandler::GetDescriptor
    &&& entry.descriptor@ == Seq::<u8>::empty()
}

/// What this process registers: the greeting service, and behind it the
/// reflection pseudo-service when reflection is enabled.
pub open spec fn is_standard_services(services: Seq<ServiceEntry>, reflection: bool) -> bool {
    if reflection {
        &&& services.len() == 2
        &&& is_greeter_entry(services[0])
        &&& is_reflection_entry(services[1])
    } else {
        &&& services.len() == 1
        &&& is_greeter_entry(services[0])
    }
}

/// Builds the greeting service's registration entry.
pub fn greeter_service() -> (r: ServiceEntry)
    ensures
        is_greeter_entry(r),
        encode_utf8(r.name@).len() <= u32::MAX,
{
    proof {
        reveal_strlit("helloworld.Greeter");
        lemma_literal_fits("helloworld.Greeter", 18);
    }
    let mut methods: Vec<MethodEntry> = Vec::new();
    methods.push(MethodEntry { name: "SayHello".to_owned(), handler: RpcHandler::SayHello });
    ServiceEntry {
        name: "helloworld.Greeter".to_owned(),
        methods,
        descriptor: greeter_descriptor(),
    }
}

/// Builds the reflection pseudo-service's registration entry.
pub fn reflection_service() -> (r: ServiceEntry)
    ensures
        is_reflection_entry(r),
        encode_utf8(r.name@).len() <= u32::MAX,
{
    proof {
        reveal_strlit("reflection.Reflection");
        lemma_literal_fits("reflection.Reflection", 21);
    }
    let mut methods: Vec<MethodEntry> = Vec::new();
    methods.push(
        MethodEntry { name: "ListServices".to_owned(), handler: RpcHandler::ListServices },
    );
    methods.push(
        MethodEntry { name: "GetDescriptor".to_owned(), handler: RpcHandler::GetDescriptor },
    );
    ServiceEntry { name: "reflection.Reflection".to_owned(), methods, descriptor: Vec::new() }
}

/// The two registered service names differ, so no lookup confuses them.
proof fn lemma_names_differ()
    ensures
        encode_utf8("helloworld.Greeter"@) != encode_utf8("reflection.Reflection"@),
{
    reveal_strlit("helloworld.Greeter");
    reveal_strlit("reflection.Reflection");
    if encode_utf8("helloworld.Greeter"@) == encode_utf8("reflection.Reflection"@) {
        lemma_encode_utf8_injective("helloworld.Greeter"@, "reflection.Reflection"@);
    }
}

/// A well-formed SayHello request on the standard server is answered with the
/// greeting of exactly the name its body carries.
pub proof fn lemma_say_hello_round_trip(
    services: Seq<ServiceEntry>,
    reflection: bool,
    name: Seq<char>,
)
    requires
        is_standard_services(services, reflection),
        encode_utf8(name).len() <= u32::MAX,
    ensures
        spec_handle_frame(
            services,
            spec_envelope(
                encode_utf8("helloworld.Greeter"@),
                encode_utf8("SayHello"@),
                encode_utf8(name),
            ),
        ) == RpcOutcomeSpec::Reply(encode_utf8(greeting_chars(name))),
{
    reveal_strlit("helloworld.Greeter");
    reveal_strlit("SayHello");
    lemma_literal_fits("helloworld.Greeter", 18);
    lemma_literal_fits("SayHello", 8);
    let service = encode_utf8("helloworld.Greeter"@);
    let method = encode_utf8("SayHello"@);
    let body = encode_utf8(name);
    lemma_envelope_round_trip(service, method, body);
    assert(spec_method_match(services[0].methods@, method) == Some(RpcHandler::SayHello));
    assert(spec_lookup(services, service, method) == Some(RpcHandler::SayHello));
    encode_utf8_valid_utf8(name);
    encode_utf8_decode_utf8(name);
}

/// No cross-talk: two SayHello requests carrying different names are answered
/// with different reply bytes, so concurrent callers can never receive one
/// another's greeting.
pub proof fn lemma_no_cross_talk(
    services: Seq<ServiceEntry>,
    reflection: bool,
    a: Seq<char>,
    b: Seq<char>,
)
    requires
        is_standard_services(services, reflection),
        encode_utf8(a).len() <= u32::MAX,
        encode_utf8(b).len() <= u32::MAX,
        a != b,
    ensures
        spec_handle_frame(
            services,
            spec_envelope(
                encode_utf8("helloworld.Greeter"@),
                encode_utf8("SayHello"@),
                encode_utf8(a),
            ),
        ) != spec_handle_frame(
            services,
            spec_envelope(
                encode_utf8("helloworld.Greeter"@),
                encode_utf8("SayHello"@),
                encode_utf8(b),
            ),
        ),
{
    lemma_say_hello_round_trip(services, reflection, a);
    lemma_say_hello_round_trip(services, reflection, b);
    lemma_distinct_names_distinct_greetings(a, b);
    if encode_utf8(greeting_chars(a)) == encode_utf8(greeting_chars(b)) {
        lemma_encode_utf8_injective(greeting_chars(a), greeting_chars(b));
    }
}

/// With reflection enabled, the list-services query is answered with the full
/// service list, and the first chunk a client reads from it is the name of
/// the registered greeting service.
pub proof fn lemma_list_services_contains_greeter(services: Seq<ServiceEntry>)
    requires
        is_standard_services(services, true),
    ensures
        spec_handle_frame(
            services,
            spec_envelope(
                encode_utf8("reflection.Reflection"@),
                encode_utf8("ListServices"@),
                Seq::<u8>::empty(),
            ),
        ) == RpcOutcomeSpec::Reply(spec_service_list(services)),
        spec_take_chunk(spec_service_list(services), 0) == Ok::<_, DecodeError>(
            (
                encode_utf8("helloworld.Greeter"@),
                4 + encode_utf8("helloworld.Greeter"@).len() as int,
            ),
        ),
{
    reveal_strlit("helloworld.Greeter");
    reveal_strlit("reflection.Reflection");
    reveal_strlit("ListServices");
    lemma_literal_fits("helloworld.Greeter", 18);
    lemma_literal_fits("reflection.Reflection", 21);
    lemma_literal_fits("ListServices", 12);
    lemma_names_differ();
    let service = encode_utf8("reflection.Reflection"@);
    let method = encode_utf8("ListServices"@);
    lemma_envelope_round_trip(service, method, Seq::<u8>::empty());
    let rest = services.drop_first();
    assert(rest[0] == services[1]);
    assert(spec_method_match(rest[0].methods@, method) == Some(RpcHandler::ListServices));
    assert(spec_lookup(rest, service, method) == Some(RpcHandler::ListServices));
    assert(spec_lookup(services, service, method) == Some(RpcHandler::ListServices));
    let greeter_name = encode_utf8("helloworld.Greeter"@);
    let tail = spec_service_list(rest);
    assert(spec_service_list(services) == spec_chunk(greeter_name) + tail);
    lemma_chunk_round_trip(Seq::<u8>::empty(), greeter_name, tail);
    assert(Seq::<u8>::empty() + spec_chunk(greeter_name) + tail =~= spec_service_list(services));
}

/// With reflection enabled, fetching the greeting service's descriptor
/// returns the embedded blob unmodified — and that blob is not empty.
pub proof fn lemma_descriptor_fetch(services: Seq<ServiceEntry>)
    requires
        is_standard_services(services, true),
    ensures
        spec_handle_frame(
            services,
            spec_envelope(
                encode_utf8("reflection.Reflection"@),
                encode_utf8("GetDescriptor"@),
                encode_utf8("helloworld.Greeter"@),
            ),
        ) == RpcOutcomeSpec::Reply(spec_greeter_descriptor()),
        spec_greeter_descriptor().len() > 0,
{
    reveal_strlit("helloworld.Greeter");
    reveal_strlit("reflection.Reflection");
    reveal_strlit("GetDescriptor");
    lemma_literal_fits("helloworld.Greeter", 18);
    lemma_literal_fits("reflection.Reflection", 21);
    lemma_literal_fits("GetDescriptor", 13);
    lemma_names_differ();
    lemma_auto_spec_u32_to_from_le_bytes();
    let service = encode_utf8("reflection.Reflection"@);
    let method = encode_utf8("GetDescriptor"@);
    let body = encode_utf8("helloworld.Greeter"@);
    lemma_envelope_round_trip(service, method, body);
    let rest = services.drop_first();
    assert(rest[0] == services[1]);
    let ms = rest[0].methods@;
    assert(encode_utf8(ms[0].name@) != method) by {
        reveal_strlit("ListServices");
        reveal_strlit("GetDescriptor");
        if encode_utf8("ListServices"@) == encode_utf8("GetDescriptor"@) {
            lemma_encode_utf8_injective("ListServices"@, "GetDescriptor"@);
        }
    }
    assert(ms.drop_first()[0] == ms[1]);
    assert(spec_method_match(ms.drop_first(), method) == Some(RpcHandler::GetDescriptor));
    assert(spec_method_match(rest[0].methods@, method) == Some(RpcHandler::GetDescriptor));
    assert(spec_lookup(rest, service, method) == Some(RpcHandler::GetDescriptor));
    assert(spec_lookup(services, service, method) == Some(RpcHandler::GetDescriptor));
    assert(spec_descriptor_lookup(services, body) == Some(spec_greeter_descriptor()));
}

} // verus!
