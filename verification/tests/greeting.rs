use hello_dual::greeting::{HelloRequest, MyGreeter};

#[test]
fn say_hello_formats_greeting() {
    let greeter = MyGreeter::default();
    let reply = greeter.say_hello(HelloRequest { name: "World".to_owned() }).unwrap();
    assert_eq!(reply.message, "Hello World!");
}

#[test]
fn say_hello_empty_name() {
    let greeter = MyGreeter::default();
    let reply = greeter.say_hello(HelloRequest { name: String::new() }).unwrap();
    assert_eq!(reply.message, "Hello !");
}

#[test]
fn say_hello_unicode_name() {
    let greeter = MyGreeter::default();
    let reply = greeter.say_hello(HelloRequest { name: "wörld ✓".to_owned() }).unwrap();
    assert_eq!(reply.message, "Hello wörld ✓!");
}

#[test]
fn concurrent_calls_get_their_own_replies() {
    let rt = tokio::runtime::Builder::new_multi_thread()
        .worker_threads(2)
        .build()
        .unwrap();
    let (a, b) = rt.block_on(async {
        let ja = tokio::spawn(async {
            let greeter = MyGreeter::default();
            greeter.say_hello(HelloRequest { name: "A".to_owned() }).unwrap().message
        });
        let jb = tokio::spawn(async {
            let greeter = MyGreeter::default();
            greeter.say_hello(HelloRequest { name: "B".to_owned() }).unwrap().message
        });
        (ja.await.unwrap(), jb.await.unwrap())
    });
    assert_eq!(a, "Hello A!");
    assert_eq!(b, "Hello B!");
}
