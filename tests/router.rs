use minihttp::router::{to_index, Captures, Dispatch, Method, Router, SimpleRouter};

#[test]
fn simple_router() {
    let mut router = Router::new();

    const GET: Method = Method::Get;
    const POST: Method = Method::Post;

    router.add_route(&[POST], "/posts", 1, true);
    router.add_route(&[GET, POST], "/posts/:pid", 2, true);
    router.add_route(&[GET], "/static/**", 3, true);

    let mut captures = Captures::empty();

    assert_eq!(router.find(&mut captures, &GET, "/posts/asd"), Some(2));
    assert_eq!(router.find(&mut captures, &POST, "/posts/asd"), Some(2));

    assert_eq!(router.find(&mut captures, &GET, "/posts/"), Some(2));
    assert_eq!(router.find(&mut captures, &POST, "/posts/"), Some(2));

    assert_eq!(router.find(&mut captures, &GET, "/posts"), None);
    assert_eq!(router.find(&mut captures, &POST, "/posts"), Some(1));

    assert_eq!(router.find(&mut captures, &GET, "/static"), None);
    assert_eq!(router.find(&mut captures, &GET, "/static/"), Some(3));
    assert_eq!(router.find(&mut captures, &GET, "/static/asd"), Some(3));
}

fn sample() -> SimpleRouter<u32> {
    let mut r = SimpleRouter::new();
    r.add_route(&[Method::Post], "/posts", 1);
    r.add_route(&[Method::Get, Method::Post], "/posts/:pid", 2);
    r.add_route(&[Method::Get], "/static/**", 3);
    r
}

#[test]
fn capture_value_is_the_path_segment() {
    let r = sample();
    let (h, c) = r.find(&Method::Get, "/posts/asd").unwrap();
    assert_eq!(*h, 2);
    assert_eq!(c.get_param("pid"), Some("asd"));
    assert_eq!(c.get_param("other"), None);
}

#[test]
fn empty_capture_is_accepted() {
    let r = sample();
    let (h, c) = r.find(&Method::Get, "/posts/").unwrap();
    assert_eq!(*h, 2);
    assert_eq!(c.get_param("pid"), Some(""));
}

#[test]
fn lookup_is_repeatable() {
    let r = sample();
    for _ in 0..3 {
        let (h, c) = r.find(&Method::Post, "/posts/x9").unwrap();
        assert_eq!(*h, 2);
        assert_eq!(c.get_param("pid"), Some("x9"));
    }
    assert!(r.find(&Method::Get, "/posts").is_none());
    assert!(r.find(&Method::Get, "/posts").is_none());
}

#[test]
fn registration_order_wins_over_specificity() {
    let mut r = SimpleRouter::new();
    r.add_route(&[Method::Get], "/a/:x", 10u32);
    r.add_route(&[Method::Get], "/a/b", 20u32);
    let (h, c) = r.find(&Method::Get, "/a/b").unwrap();
    assert_eq!(*h, 10);
    assert_eq!(c.get_param("x"), Some("b"));
}

#[test]
fn method_filter_skips_routes() {
    let r = sample();
    assert!(r.find(&Method::Delete, "/posts/1").is_none());
    assert!(r.find(&Method::Post, "/static/a").is_none());
    let (h, _) = r.find(&Method::Get, "/static/a/b/c").unwrap();
    assert_eq!(*h, 3);
}

#[test]
fn capture_does_not_cross_a_slash() {
    let r = sample();
    assert!(r.find(&Method::Get, "/posts/a/b").is_none());
}

#[test]
fn several_captures_and_statics() {
    let mut r = SimpleRouter::new();
    r.add_route(&[Method::Put], "/users/:uid/posts/:pid", 7u32);
    let (h, c) = r.find(&Method::Put, "/users/42/posts/héllo").unwrap();
    assert_eq!(*h, 7);
    assert_eq!(c.get_param("uid"), Some("42"));
    assert_eq!(c.get_param("pid"), Some("héllo"));
    assert!(r.find(&Method::Put, "/users/42/post/1").is_none());
}

#[test]
fn dispatch_falls_back_then_not_found() {
    let mut r = sample();
    assert!(matches!(r.route(&Method::Get, "/nope"), Dispatch::NotFound));
    r.set_default(99);
    match r.route(&Method::Get, "/nope") {
        Dispatch::Fallback(h) => assert_eq!(*h, 99),
        _ => panic!("expected the fallback"),
    }
    match r.route(&Method::Get, "/posts/7") {
        Dispatch::Matched(h, c) => {
            assert_eq!(*h, 2);
            assert_eq!(c.get_param("pid"), Some("7"));
        }
        _ => panic!("expected a match"),
    }
}

#[test]
fn captures_accumulate_across_lookups() {
    let mut router = Router::new();
    router.add_route(&[Method::Get], "/p/:a", 0, false);
    let mut captures = Captures::empty();
    assert_eq!(router.find(&mut captures, &Method::Get, "/p/one"), Some(0));
    assert_eq!(captures.get_param("/p/one", "a"), Some("one"));
    assert_eq!(router.find(&mut captures, &Method::Get, "/q"), None);
    assert_eq!(captures.get_param("/p/one", "a"), Some("one"));
}

#[test]
fn method_indices_are_distinct() {
    let all = [
        Method::Get,
        Method::Post,
        Method::Put,
        Method::Delete,
        Method::Head,
        Method::Options,
        Method::Connect,
        Method::Patch,
        Method::Trace,
    ];
    for (i, m) in all.iter().enumerate() {
        assert_eq!(to_index(m) as usize, i);
    }
}
