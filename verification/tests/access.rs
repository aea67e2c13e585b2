use multipass_video::access::{
    failed_login, login_page, read_header, Failed, Gate, Inner, Login, RequestHead, Status,
    LOGIN_DELAY_MS,
};
use multipass_video::secrets::{
    cookie_value, ct_eq, load_or_create_secret, mint_secret, same_secret, secret_line, Secret,
};
use multipass_video::state::Persisted;

const HUNTER2: &str = "f52fbd32b2b3b86ff88ef6c490628285f482af15ddcb29541f94bcf526a3f6c7";

fn server(viewer_key: Option<&str>) -> Inner {
    Inner::new(
        "admin".to_string(),
        viewer_key.map(|k| k.to_string()),
        Persisted::default(),
    )
}

fn request(method: &str, path: &str, cookies: &[&str], accept: Option<&str>) -> RequestHead {
    RequestHead {
        method: method.to_string(),
        path: path.to_string(),
        cookies: cookies.iter().map(|c| c.as_bytes().to_vec()).collect(),
        accept: accept.map(|a| a.as_bytes().to_vec()),
    }
}

fn get(path: &str) -> RequestHead {
    request("GET", path, &[], None)
}

fn refused() -> Gate {
    Gate::Refuse { status: Status::Unauthorized }
}

#[test]
fn token_check_is_exact() {
    assert!(ct_eq(b"abc", b"abc"));
    assert!(!ct_eq(b"abc", b"abd"));
    assert!(!ct_eq(b"abc", b"ab"));
    assert!(!ct_eq(b"", b"a"));
}

#[test]
fn without_a_viewer_key_anyone_can_watch() {
    let app = server(None);
    assert_eq!(app.viewer_gate(&get("/api/state")), Gate::Pass);
    assert_eq!(
        app.login_post("anything"),
        Login::Redirect { location: "/".to_string(), set_cookie: None }
    );
}

#[test]
fn with_a_viewer_key_everything_needs_the_cookie() {
    let app = server(Some("hunter2"));
    // API and media: 401. A browser asking for a page: sent to /login.
    for path in ["/api/state", "/api/events", "/media/x.mp4", "/api/files"] {
        assert_eq!(app.viewer_gate(&get(path)), refused(), "{path}");
    }
    for path in ["/", "/admin"] {
        let req = request("GET", path, &[], Some("text/html"));
        assert_eq!(
            app.viewer_gate(&req),
            Gate::Redirect { location: "/login".to_string() },
            "{path}"
        );
    }
    // The login page itself is open.
    assert_eq!(app.viewer_gate(&get("/login")), Gate::Pass);

    // A wrong key is refused, the right one sets the cookie.
    assert_eq!(app.login_post("hunter3"), Login::TakeTurn);
    let set_cookie = match app.login_post("hunter2") {
        Login::Redirect { location, set_cookie: Some(header) } => {
            assert_eq!(location, "/");
            header
        }
        other => panic!("{other:?}"),
    };
    assert_eq!(
        set_cookie,
        format!("mp_viewer={HUNTER2}; Path=/; Max-Age=31536000; HttpOnly; SameSite=Lax")
    );
    let cookie = set_cookie.split(';').next().unwrap().to_string();
    assert!(cookie.starts_with("mp_viewer="));

    // With it, the API answers; a forged cookie does not.
    let with = |c: &str| request("GET", "/api/state", &[c], None);
    assert_eq!(app.viewer_gate(&with(&cookie)), Gate::Pass);
    assert_eq!(app.viewer_gate(&with("mp_viewer=deadbeef")), refused());
}

#[test]
fn cookies_are_found_among_others() {
    let app = server(Some("hunter2"));
    let pass = |cookies: &[&str]| app.viewer_gate(&request("GET", "/x", cookies, None)) == Gate::Pass;
    let cookie = format!("mp_viewer={HUNTER2}");
    assert!(pass(&[&format!("a=b; {cookie}")]));
    assert!(pass(&[&format!("{cookie}; a=b")]));
    assert!(pass(&[&format!("a=b;\t {cookie} ;c")]));
    assert!(pass(&["a=b", &cookie]));
    assert!(pass(&[&format!("mp_viewer=deadbeef; {cookie}")]));
    assert!(!pass(&[]));
    assert!(!pass(&[""]));
    assert!(!pass(&[&format!("{cookie}0")]));
    assert!(!pass(&[&format!("x{cookie}")]));
    assert!(!pass(&[&format!("mp_viewer ={HUNTER2}")]));
    assert!(!pass(&[&format!("mp_viewer= {HUNTER2}")]));
    assert!(!pass(&[&format!("{cookie}; \u{e9}")]));
}

#[test]
fn only_a_get_for_a_page_is_redirected() {
    let app = server(Some("hunter2"));
    let gate = |method: &str, accept: Option<&str>| {
        app.viewer_gate(&request(method, "/", &[], accept))
    };
    let redirect = Gate::Redirect { location: "/login".to_string() };
    assert_eq!(gate("GET", Some("application/xml, text/html;q=0.9")), redirect);
    assert_eq!(gate("GET", Some("*/*")), refused());
    assert_eq!(gate("GET", Some("text/html\u{e9}")), refused());
    assert_eq!(gate("POST", Some("text/html")), refused());
    assert_eq!(app.viewer_gate(&get("/login/")), refused());
}

#[test]
fn failed_logins_are_served_one_at_a_time() {
    let app = server(Some("abcde"));
    let template = "<p>{{error}}</p>";
    for _ in 0..2 {
        assert_eq!(app.login_post("zzzzz"), Login::TakeTurn);
        assert_eq!(failed_login(Failed::Turn, template), Login::Hold { ms: 500 });
        assert_eq!(
            failed_login(Failed::Held, template),
            Login::Refuse {
                status: Status::Unauthorized,
                page: "<p>That key was not accepted.</p>".to_string(),
            }
        );
    }
    assert!(2 * LOGIN_DELAY_MS >= 1000);
    assert_eq!(login_page(template), "<p></p>");
}

#[test]
fn a_key_may_be_typed_with_space_around_it() {
    let app = server(Some("hunter2"));
    assert_ne!(app.login_post(" \thunter2\n"), Login::TakeTurn);
    assert_eq!(app.login_post("hunter 2"), Login::TakeTurn);
    assert_eq!(app.login_post("Hunter2"), Login::TakeTurn);
    assert_eq!(app.login_post(""), Login::TakeTurn);
}

#[test]
fn only_the_bearer_of_the_token_is_admitted() {
    let app = server(None);
    assert_eq!(app.require_admin(Some(b"Bearer admin")), Ok(()));
    for bad in ["Bearer admin ", "bearer admin", "Bearer  admin", "admin", "Bearer ", ""] {
        assert_eq!(app.require_admin(Some(bad.as_bytes())), Err(Status::Unauthorized), "{bad}");
    }
    assert_eq!(app.require_admin(Some(b"Bearer admin\xff")), Err(Status::Unauthorized));
    assert_eq!(app.require_admin(None), Err(Status::Unauthorized));
}

#[test]
fn headers_are_read_as_the_http_types_read_them() {
    for b in 0..=255u8 {
        let got = read_header(&[b'a', b]).is_some();
        let expected = match axum::http::HeaderValue::from_bytes(&[b'a', b]) {
            Ok(v) => v.to_str().is_ok(),
            Err(_) => false,
        };
        assert_eq!(got, expected, "{b}");
    }
    assert_eq!(read_header(b"a\tb"), Some(vec!['a', '\t', 'b']));
}

#[test]
fn the_cookie_is_the_hash_of_the_key() {
    assert_eq!(cookie_value("hunter2"), HUNTER2);
    assert_eq!(
        cookie_value(""),
        "e3b0c44298fc1c149afbf4c8996fb92427ae41e4649b934ca495991b7852b855"
    );
    assert!(same_secret("\u{e9}", "\u{e9}"));
    assert!(!same_secret("\u{e9}", "e"));
}

#[test]
fn secrets_are_minted_from_random_bytes() {
    let mut bytes = [0u8; 32];
    bytes[1] = 30;
    bytes[2] = 31;
    bytes[3] = 255;
    bytes[4] = 23;
    assert_eq!(mint_secret(&bytes, true), "a9ah2");
    assert_eq!(mint_secret(&bytes, false), format!("001e1fff17{}", "00".repeat(27)));
}

#[test]
fn a_secret_is_kept_or_minted() {
    for short in [true, false] {
        match load_or_create_secret(Some("  s3cret\n"), short) {
            Ok(Secret::Kept { secret }) => assert_eq!(secret, "s3cret"),
            _ => panic!("not kept"),
        }
        for contents in [None, Some(""), Some(" \n")] {
            let mint = || match load_or_create_secret(contents, short) {
                Ok(Secret::Minted { secret }) => secret,
                _ => panic!("not minted"),
            };
            let (a, b) = (mint(), mint());
            assert_eq!(a.len(), if short { 5 } else { 64 });
            // What the generator gives is neither a constant nor all zero.
            if !short {
                assert_ne!(a, b);
                assert_ne!(a, "00".repeat(32));
            }
            match load_or_create_secret(Some(&secret_line(&a)), short) {
                Ok(Secret::Kept { secret }) => assert_eq!(secret, a),
                _ => panic!("not read back"),
            }
        }
    }
}
