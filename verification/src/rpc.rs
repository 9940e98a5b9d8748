use vstd::prelude::*;
use vstd::slice::slice_to_vec;
use vstd::string::{StrSliceExecFns, StringSliceAdditionalSpecFns};
use vstd::utf8::{decode_utf8, encode_utf8, valid_utf8};

use crate::codec::{
    lemma_envelope_round_trip, parse_envelope, put_chunk, spec_chunk, spec_envelope,
    spec_parse_envelope, DecodeError,
};
use crate::greeting::{greeting_chars, HelloRequest, MyGreeter};
use crate::status::StatusCode;
use crate::text::{bytes_eq, string_from_utf8};

verus! {

/// The handlers a method table entry can bind.
#[derive(Clone, Copy, Debug, PartialEq, Eq, Structural)]
pub enum RpcHandler {
    /// The greeting service's one unary method.
    SayHello,
    /// Reflection: list the registered services.
    ListServices,
    /// Reflection: return a service's schema descriptor bytes unmodified.
    GetDescriptor,
}

/// One method of a registered service.
pub struct MethodEntry {
    pub name: String,
    pub handler: RpcHandler,
}

/// One registered service: its name, its method table and its embedded
/// schema descriptor blob, loaded once and read-only from then on.
pub struct ServiceEntry {
    pub name: String,
    pub methods: Vec<MethodEntry>,
    pub descriptor: Vec<u8>,
}

/// The RPC server: the registered services, looked up by exact
/// (service, method) name pair — no fallback of any kind.
pub struct RpcServer {
    pub services: Vec<ServiceEntry>,
}

/// What one inbound request frame produced.
pub enum RpcOutcome {
    /// A handler ran; its encoded reply.
    Reply(Vec<u8>),
    /// The frame was well formed but the request was refused; the status the
    /// caller gets back.
    Refused(StatusCode),
    /// The frame was malformed: a connection-scoped failure, fatal to nothing
    /// but the one connection.
    Malformed(DecodeError),
}

/// Specification-level mirror of `RpcOutcome`.
pub enum RpcOutcomeSpec {
    Reply(Seq<u8>),
    Refused(StatusCode),
    Malformed(DecodeError),
}

impl View for RpcOutcome {
    type V = RpcOutcomeSpec;

    open spec fn view(&self) -> RpcOutcomeSpec {
        match self {
            RpcOutcome::Reply(bytes) => RpcOutcomeSpec::Reply(bytes@),
            RpcOutcome::Refused(code) => RpcOutcomeSpec::Refused(*code),
            RpcOutcome::Malformed(e) => RpcOutcomeSpec::Malformed(*e),
        }
    }
}

/// The handler an exact method-name match finds in one service's table.
pub open spec fn spec_method_match(methods: Seq<MethodEntry>, method: Seq<u8>) -> Option<RpcHandler>
    decreases methods.len(),
{
    if methods.len() == 0 {
        None
    } else if encode_utf8(methods[0].name@) == method {
        Some(methods[0].handler)
    } else {
        spec_method_match(methods.drop_first(), method)
    }
}

/// The handler an exact (service, method) pair finds, front to back over the
/// registered services.
pub open spec fn spec_lookup(
    services: Seq<ServiceEntry>,
    service: Seq<u8>,
    method: Seq<u8>,
) -> Option<RpcHandler>
    decreases services.len(),
{
    if services.len() == 0 {
        None
    } else if encode_utf8(services[0].name@) == service && spec_method_match(
        services[0].methods@,
        method,
    ) is Some {
        spec_method_match(services[0].methods@, method)
    } else {
        spec_lookup(services.drop_first(), service, method)
    }
}

/// The reflection list: every registered service's name, each in a chunk of
/// its own, in registration order.
pub open spec fn spec_service_list(services: Seq<ServiceEntry>) -> Seq<u8>
    decreases services.len(),
{
    if services.len() == 0 {
        Seq::empty()
    } else {
        spec_chunk(encode_utf8(services[0].name@)) + spec_service_list(services.drop_first())
    }
}

/// The descriptor bytes registered under a service name, front to back.
pub open spec fn spec_descriptor_lookup(
    services: Seq<ServiceEntry>,
    service: Seq<u8>,
) -> Option<Seq<u8>>
    decreases services.len(),
{
    if services.len() == 0 {
        None
    } else if encode_utf8(services[0].name@) == service {
        Some(services[0].descriptor@)
    } else {
        spec_descriptor_lookup(services.drop_first(), service)
    }
}

/// What a handler owes for a given request body.
pub open spec fn spec_invoke(
    services: Seq<ServiceEntry>,
    handler: RpcHandler,
    body: Seq<u8>,
) -> RpcOutcomeSpec {
    match handler {
        RpcHandler::SayHello => if valid_utf8(body) {
            RpcOutcomeSpec::Reply(encode_utf8(greeting_chars(decode_utf8(body))))
        } else {
            RpcOutcomeSpec::Malformed(DecodeError::InvalidText)
        },
        RpcHandler::ListServices => RpcOutcomeSpec::Reply(spec_service_list(services)),
        RpcHandler::GetDescriptor => match spec_descriptor_lookup(services, body) {
            Some(bytes) => RpcOutcomeSpec::Reply(bytes),
            None => RpcOutcomeSpec::Refused(StatusCode::NotFound),
        },
    }
}

/// What the server owes for one inbound frame: a malformed frame is rejected
/// as such, an unknown (service, method) pair is refused with the not-found
/// status, and a known pair runs its handler.
pub open spec fn spec_handle_frame(services: Seq<ServiceEntry>, frame: Seq<u8>) -> RpcOutcomeSpec {
    match spec_parse_envelope(frame) {
        Err(e) => RpcOutcomeSpec::Malformed(e),
        Ok((service, method, body)) => match spec_lookup(services, service, method) {
            None => RpcOutcomeSpec::Refused(StatusCode::NotFound),
            Some(handler) => spec_invoke(services, handler, body),
        },
    }
}

/// Appending a service extends the reflection list by that service's chunk.
proof fn lemma_service_list_snoc(services: Seq<ServiceEntry>, entry: ServiceEntry)
    ensures
        spec_service_list(services.push(entry)) == spec_service_list(services) + spec_chunk(
            encode_utf8(entry.name@),
        ),
    decreases services.len(),
{
    let snoc = services.push(entry);
    if services.len() == 0 {
        assert(snoc[0] == entry);
        assert(snoc.drop_first() =~= Seq::<ServiceEntry>::empty());
        assert(spec_service_list(snoc) == spec_chunk(encode_utf8(entry.name@))
            + spec_service_list(snoc.drop_first()));
        assert(spec_service_list(snoc.drop_first()) == Seq::<u8>::empty());
        assert(spec_service_list(services) == Seq::<u8>::empty());
        assert(spec_chunk(encode_utf8(entry.name@)) + Seq::<u8>::empty() =~= spec_service_list(
            services,
        ) + spec_chunk(encode_utf8(entry.name@)));
    } else {
        assert(snoc[0] == services[0]);
        assert(snoc.drop_first() =~= services.drop_first().push(entry));
        lemma_service_list_snoc(services.drop_first(), entry);
        assert(spec_service_list(snoc) == spec_chunk(encode_utf8(services[0].name@)) + (
        spec_service_list(services.drop_first()) + spec_chunk(encode_utf8(entry.name@))));
        assert(spec_service_list(services) == spec_chunk(encode_utf8(services[0].name@))
            + spec_service_list(services.drop_first()));
        assert(spec_chunk(encode_utf8(services[0].name@)) + (spec_service_list(
            services.drop_first(),
        ) + spec_chunk(encode_utf8(entry.name@))) =~= spec_service_list(services) + spec_chunk(
            encode_utf8(entry.name@),
        ));
    }
}

/// The handler a method name finds in one service's table.
fn method_match(methods: &Vec<MethodEntry>, method: &[u8]) -> (r: Option<RpcHandler>)
    ensures
        r == spec_method_match(methods@, method@),
{
    let mut i: usize = 0;
    proof {
        assert(methods@.skip(0) =~= methods@);
    }
    while i < methods.len()
        invariant
            i <= methods@.len(),
            spec_method_match(methods@, method@) == spec_method_match(
                methods@.skip(i as int),
                method@,
            ),
        decreases methods@.len() - i,
    {
        let entry = &methods[i];
        proof {
            assert(methods@.skip(i as int)[0] == methods@[i as int]);
        }
        if bytes_eq(entry.name.as_str().as_bytes(), method) {
            return Some(entry.handler);
        }
        proof {
            assert(methods@.skip(i as int).drop_first() =~= methods@.skip(i + 1));
        }
        i = i + 1;
    }
    proof {
        assert(methods@.skip(i as int) =~= Seq::<MethodEntry>::empty());
    }
    None
}

impl RpcServer {
    /// Well-formed: every registered service name fits a chunk's length
    /// prefix, so the reflection list can always be encoded.
    pub open spec fn wf(&self) -> bool {
        forall|i: int|
            0 <= i < self.services@.len() ==> encode_utf8(
                (#[trigger] self.services@[i]).name@,
            ).len() <= u32::MAX
    }

    /// A server with nothing registered yet.
    pub fn new() -> (r: RpcServer)
        ensures
            r.services@ =~= Seq::<ServiceEntry>::empty(),
            r.wf(),
    {
        RpcServer { services: Vec::new() }
    }

    /// Registers one more service: lookup sees it after every service
    /// registered before it.
    pub fn register(&mut self, service: ServiceEntry)
        requires
            old(self).wf(),
            encode_utf8(service.name@).len() <= u32::MAX,
        ensures
            final(self).services@ == old(self).services@.push(service),
            final(self).wf(),
    {
        self.services.push(service);
    }

    /// Exact (service, method) lookup over the registered tables.
    pub fn lookup(&self, service: &[u8], method: &[u8]) -> (r: Option<RpcHandler>)
        ensures
            r == spec_lookup(self.services@, service@, method@),
    {
        let mut i: usize = 0;
        proof {
            assert(self.services@.skip(0) =~= self.services@);
        }
        while i < self.services.len()
            invariant
                i <= self.services@.len(),
                spec_lookup(self.services@, service@, method@) == spec_lookup(
                    self.services@.skip(i as int),
                    service@,
                    method@,
                ),
            decreases self.services@.len() - i,
        {
            let entry = &self.services[i];
            proof {
                assert(self.services@.skip(i as int)[0] == self.services@[i as int]);
            }
            if bytes_eq(entry.name.as_str().as_bytes(), service) {
                let found = method_match(&entry.methods, method);
                if found.is_some() {
                    return found;
                }
            }
            proof {
                assert(self.services@.skip(i as int).drop_first() =~= self.services@.skip(i + 1));
            }
            i = i + 1;
        }
        proof {
            assert(self.services@.skip(i as int) =~= Seq::<ServiceEntry>::empty());
        }
        None
    }

    /// Encodes the reflection list of every registered service's name.
    pub fn service_list(&self) -> (r: Vec<u8>)
        requires
            self.wf(),
        ensures
            r@ == spec_service_list(self.services@),
    {
        let mut out: Vec<u8> = Vec::new();
        let mut i: usize = 0;
        proof {
            assert(self.services@.take(0) =~= Seq::<ServiceEntry>::empty());
        }
        while i < self.services.len()
            invariant
                i <= self.services@.len(),
                self.wf(),
                out@ == spec_service_list(self.services@.take(i as int)),
            decreases self.services@.len() - i,
        {
            let entry = &self.services[i];
            put_chunk(&mut out, entry.name.as_str().as_bytes());
            proof {
                lemma_service_list_snoc(self.services@.take(i as int), self.services@[i as int]);
                assert(self.services@.take(i as int).push(self.services@[i as int])
                    =~= self.services@.take(i + 1));
            }
            i = i + 1;
        }
        proof {
            assert(self.services@.take(i as int) =~= self.services@);
        }
        out
    }

    /// The descriptor bytes registered under a service name, unmodified.
    pub fn descriptor_for(&self, service: &[u8]) -> (r: Option<Vec<u8>>)
        ensures
            r matches Some(bytes) ==> spec_descriptor_lookup(self.services@, service@) == Some(
                bytes@,
            ),
            r is None ==> spec_descriptor_lookup(self.services@, service@) is None,
    {
        let mut i: usize = 0;
        proof {
            assert(self.services@.skip(0) =~= self.services@);
        }
        while i < self.services.len()
            invariant
                i <= self.services@.len(),
                spec_descriptor_lookup(self.services@, service@) == spec_descriptor_lookup(
                    self.services@.skip(i as int),
                    service@,
                ),
            decreases self.services@.len() - i,
        {
            let entry = &self.services[i];
            proof {
                assert(self.services@.skip(i as int)[0] == self.services@[i as int]);
            }
            if bytes_eq(entry.name.as_str().as_bytes(), service) {
                return Some(slice_to_vec(entry.descriptor.as_slice()));
            }
            proof {
                assert(self.services@.skip(i as int).drop_first() =~= self.services@.skip(i + 1));
            }
            i = i + 1;
        }
        proof {
            assert(self.services@.skip(i as int) =~= Seq::<ServiceEntry>::empty());
        }
        None
    }

    /// Runs one handler on a request body.
    fn invoke(&self, handler: RpcHandler, body: Vec<u8>) -> (r: RpcOutcome)
        requires
            self.wf(),
        ensures
            r@ == spec_invoke(self.services@, handler, body@),
    {
        match handler {
            RpcHandler::SayHello => {
                let ghost body_bytes = body@;
                match string_from_utf8(body) {
                    None => RpcOutcome::Malformed(DecodeError::InvalidText),
                    Some(name) => {
                        let greeter = MyGreeter {};
                        match greeter.say_hello(HelloRequest { name }) {
                            Result::Ok(reply) => RpcOutcome::Reply(
                                reply.message.as_str().as_bytes_vec(),
                            ),
                            // A handler error becomes a status for the caller,
                            // never a crash; this handler never fails.
                            Result::Err(code) => RpcOutcome::Refused(code),
                        }
                    },
                }
            },
            RpcHandler::ListServices => RpcOutcome::Reply(self.service_list()),
            RpcHandler::GetDescriptor => match self.descriptor_for(body.as_slice()) {
                Some(bytes) => RpcOutcome::Reply(bytes),
                None => RpcOutcome::Refused(StatusCode::NotFound),
            },
        }
    }

    /// Serves one inbound request frame, never panicking and never letting a
    /// handler failure past the request boundary.
    pub fn handle_frame(&self, frame: &[u8]) -> (r: RpcOutcome)
        requires
            self.wf(),
        ensures
            r@ == spec_handle_frame(self.services@, frame@),
    {
        let parsed = match parse_envelope(frame) {
            Result::Err(e) => {
                return RpcOutcome::Malformed(e);
            },
            Result::Ok(p) => p,
        };
        let handler = match self.lookup(parsed.0.as_slice(), parsed.1.as_slice()) {
            None => {
                return RpcOutcome::Refused(StatusCode::NotFound);
            },
            Some(h) => h,
        };
        self.invoke(handler, parsed.2)
    }
}

/// An unknown (service, method) pair in a well-formed frame is refused with
/// the not-found status — whatever the body holds, it is never decoded, so
/// the outcome is never a decode error and never a crash.
pub proof fn lemma_unknown_method_not_found(
    services: Seq<ServiceEntry>,
    service: Seq<u8>,
    method: Seq<u8>,
    body: Seq<u8>,
)
    requires
        service.len() <= u32::MAX,
        method.len() <= u32::MAX,
        body.len() <= u32::MAX,
        spec_lookup(services, service, method) is None,
    ensures
        spec_handle_frame(services, spec_envelope(service, method, body))
            == RpcOutcomeSpec::Refused(StatusCode::NotFound),
{
    lemma_envelope_round_trip(service, method, body);
}

} // verus!
