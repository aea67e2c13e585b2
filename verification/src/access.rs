//! Who may administer and who may watch.
use crate::secrets::{
    cookie_of, cookie_value, law_presentable_secrets, presentable, same_secret, sha256_digest,
};
use crate::state::Persisted;
use crate::text::{
    chars_of, contains_text, has_text, hex, is_at, is_text, law_holding_a_text,
    law_replacing_nothing, law_replacing_the_first, law_trimming, lemma_hex_digits,
    lemma_trimmed_fixed, occurs_at, replace, replaced, string_of, trim, trim_bounds, trimmed,
    trimmed_at, trimmed_start, white_space,
};
use vstd::prelude::*;
use vstd::slice::*;
use vstd::string::*;
use vstd::utf8::*;

verus! {

/// The statuses that requests are answered with.
#[derive(Clone, Copy, Debug, PartialEq, Eq, Structural)]
pub enum Status {
    NoContent,
    BadRequest,
    Unauthorized,
    NotFound,
    PayloadTooLarge,
    InternalServerError,
}

/// What the server knows: its secrets and its state.
pub struct Inner {
    pub admin_token: String,
    /// The viewer key and the cookie value that proves it (its SHA-256, hex).
    pub viewer: Option<(String, String)>,
    pub state: Persisted,
}

/// The bytes that a header value may hold to be read as text.
pub open spec fn visible_ascii(b: u8) -> bool {
    32 <= b < 127 || b == 9
}

/// A header value as text; there is none if it holds any other byte.
pub open spec fn header_text(value: Seq<u8>) -> Option<Seq<char>> {
    if forall|i: int| 0 <= i < value.len() ==> visible_ascii(#[trigger] value[i]) {
        Some(value.map_values(|b: u8| b as char))
    } else {
        None
    }
}

/// A header value as text.
pub fn read_header(value: &[u8]) -> (r: Option<Vec<char>>)
    ensures
        match r {
            Some(t) => header_text(value@) == Some(t@),
            None => header_text(value@) is None,
        },
{
    let mut t: Vec<char> = Vec::new();
    for i in 0..value.len()
        invariant
            t@ == value@.map_values(|b: u8| b as char).take(i as int),
            forall|k: int| 0 <= k < i ==> visible_ascii(#[trigger] value@[k]),
    {
        let b = value[i];
        if !((32 <= b && b < 127) || b == 9) {
            return None;
        }
        t.push(b as char);
    }
    assert(t@ =~= value@.map_values(|b: u8| b as char));
    Some(t)
}

/// The value of a header that may be missing.
pub open spec fn header_bytes(value: Option<&[u8]>) -> Option<Seq<u8>> {
    match value {
        Some(v) => Some(v@),
        None => None,
    }
}

/// The token an `Authorization` header presents: what follows `Bearer `, and
/// nothing if the header is missing, is not text or does not begin so.
pub open spec fn presented_token(authorization: Option<Seq<u8>>) -> Seq<char> {
    match authorization {
        Some(value) => match header_text(value) {
            Some(t) => if occurs_at(t, "Bearer "@, 0) {
                t.skip(7)
            } else {
                seq![]
            },
            None => seq![],
        },
        None => seq![],
    }
}

fn bearer(authorization: Option<&[u8]>) -> (r: String)
    ensures
        r@ == presented_token(header_bytes(authorization)),
{
    if let Some(value) = authorization {
        if let Some(t) = read_header(value) {
            let prefix = chars_of("Bearer ");
            if is_at(t.as_slice(), prefix.as_slice(), 0) {
                proof {
                    reveal_strlit("Bearer ");
                }
                return string_of(slice_subrange(t.as_slice(), 7, t.len()));
            }
        }
    }
    String::new()
}

/// The name of the viewers' cookie and the sign before its value.
pub open spec fn cookie_prefix() -> Seq<char> {
    "mp_viewer="@
}

/// The text from `i` to `j` is one of the parts that semicolons divide `s` into.
pub open spec fn is_part(s: Seq<char>, i: int, j: int) -> bool {
    &&& 0 <= i <= j <= s.len()
    &&& i > 0 ==> s[i - 1] == ';'
    &&& j < s.len() ==> s[j] == ';'
    &&& forall|k: int| i <= k < j ==> s[k] != ';'
}

/// The part from `i` to `j` of a `Cookie` header is the viewers' cookie with
/// the given value.
pub open spec fn part_presents(s: Seq<char>, i: int, j: int, value: Seq<char>) -> bool {
    is_part(s, i, j) && trimmed(s.subrange(i, j)) == cookie_prefix() + value
}

/// A `Cookie` header presents the viewers' cookie with the given value.
pub open spec fn header_presents(header: Seq<u8>, value: Seq<char>) -> bool {
    match header_text(header) {
        Some(s) => exists|i: int, j: int| part_presents(s, i, j, value),
        None => false,
    }
}

fn is_viewer_cookie(part: &[char], value: &str) -> (r: bool)
    ensures
        r == (trimmed(part@) == cookie_prefix() + value@),
{
    let (i, j) = trim_bounds(part);
    let cookie = slice_subrange(part, i, j);
    let prefix = chars_of("mp_viewer=");
    let n = prefix.len();
    if !is_at(cookie, prefix.as_slice(), 0) {
        assert(trimmed(part@) == cookie_prefix() + value@ ==> cookie@.subrange(0, n as int)
            =~= cookie_prefix());
        return false;
    }
    let presented = string_of(slice_subrange(cookie, n, cookie.len()));
    assert(cookie@ =~= cookie_prefix() + presented@);
    assert((cookie_prefix() + value@).skip(n as int) =~= value@);
    assert((cookie_prefix() + presented@).skip(n as int) =~= presented@);
    same_secret(presented.as_str(), value)
}

fn presents(header: &[u8], value: &str) -> (r: bool)
    ensures
        r == header_presents(header@, value@),
{
    let s = match read_header(header) {
        Some(s) => s,
        None => return false,
    };
    let mut start: usize = 0;
    let mut i: usize = 0;
    loop
        invariant
            header_text(header@) is Some,
            header_text(header@)->0 == s@,
            0 <= start <= i <= s.len(),
            start > 0 ==> s@[start - 1] == ';',
            forall|k: int| start <= k < i ==> s@[k] != ';',
            forall|a: int, b: int| b < start ==> !part_presents(s@, a, b, value@),
        decreases s.len() - i,
    {
        if i == s.len() || s[i] == ';' {
            if is_viewer_cookie(slice_subrange(s.as_slice(), start, i), value) {
                assert(part_presents(s@, start as int, i as int, value@));
                return true;
            }
            assert forall|a: int, b: int| b <= i implies !part_presents(s@, a, b, value@) by {
                if is_part(s@, a, b) && b >= start {
                    if b < i {
                        assert(s@[b] != ';');
                    }
                    if a > start {
                        assert(s@[a - 1] == ';');
                    }
                    if a < start {
                        assert(s@[start - 1] != ';');
                    }
                }
            }
            if i == s.len() {
                return false;
            }
            start = i + 1;
        }
        i = i + 1;
    }
}

/// What decides whether a request is served: its method, its path, the values
/// of its `Cookie` headers and that of its first `Accept` header.
pub struct RequestHead {
    pub method: String,
    pub path: String,
    pub cookies: Vec<Vec<u8>>,
    pub accept: Option<Vec<u8>>,
}

/// Some `Cookie` header of a request presents the viewers' cookie.
pub open spec fn cookie_presented(req: RequestHead, value: Seq<char>) -> bool {
    exists|k: int| 0 <= k < req.cookies@.len() && header_presents(#[trigger] req.cookies@[k]@, value)
}

/// A request comes from a browser that asks for a page.
pub open spec fn wants_page(req: RequestHead) -> bool {
    &&& req.method@ == "GET"@
    &&& req.accept is Some
    &&& header_text(req.accept->0@) is Some
    &&& contains_text(header_text(req.accept->0@)->0, "text/html"@)
}

/// What becomes of a request.
#[derive(Debug, PartialEq, Eq)]
pub enum Gate {
    /// Serve it.
    Pass,
    /// Send the browser to this path.
    Redirect { location: String },
    /// Answer with this status.
    Refuse { status: Status },
}

/// What becomes of a request, as a mathematical value.
pub enum GateModel {
    Pass,
    Redirect { location: Seq<char> },
    Refuse { status: Status },
}

impl View for Gate {
    type V = GateModel;

    open spec fn view(&self) -> GateModel {
        match *self {
            Gate::Pass => GateModel::Pass,
            Gate::Redirect { location } => GateModel::Redirect { location: location@ },
            Gate::Refuse { status } => GateModel::Refuse { status },
        }
    }
}

/// Everything but the login page needs the viewers' cookie, when there is one
/// (`cookie` is its value). A browser asking for a page is sent to log in;
/// anything else gets 401.
pub open spec fn gate(cookie: Option<Seq<char>>, req: RequestHead) -> GateModel {
    match cookie {
        None => GateModel::Pass,
        Some(value) => if req.path@ == "/login"@ || cookie_presented(req, value) {
            GateModel::Pass
        } else if wants_page(req) {
            GateModel::Redirect { location: "/login"@ }
        } else {
            GateModel::Refuse { status: Status::Unauthorized }
        },
    }
}

/// What to do next about a login.
#[derive(Debug, PartialEq, Eq)]
pub enum Login {
    /// Send the browser to this path, with this `Set-Cookie` header if there
    /// is one.
    Redirect { location: String, set_cookie: Option<String> },
    /// The key was wrong: take the turn that one failed login has at a time.
    TakeTurn,
    /// Keep the turn for this many milliseconds.
    Hold { ms: u64 },
    /// Answer with this status and page, and give the turn back.
    Refuse { status: Status, page: String },
}

/// What to do next about a login, as a mathematical value.
pub enum LoginModel {
    Redirect { location: Seq<char>, set_cookie: Option<Seq<char>> },
    TakeTurn,
    Hold { ms: int },
    Refuse { status: Status, page: Seq<char> },
}

impl View for Login {
    type V = LoginModel;

    open spec fn view(&self) -> LoginModel {
        match *self {
            Login::Redirect { location, set_cookie } => LoginModel::Redirect {
                location: location@,
                set_cookie: match set_cookie {
                    Some(header) => Some(header@),
                    None => None,
                },
            },
            Login::TakeTurn => LoginModel::TakeTurn,
            Login::Hold { ms } => LoginModel::Hold { ms: ms as int },
            Login::Refuse { status, page } => LoginModel::Refuse { status, page: page@ },
        }
    }
}

/// How far a failed login has come.
#[derive(Clone, Copy, Debug, PartialEq, Eq, Structural)]
pub enum Failed {
    /// It has the turn.
    Turn,
    /// It has kept the turn as long as it was told to.
    Held,
}

/// How long a failed login keeps the turn, in milliseconds.
pub const LOGIN_DELAY_MS: u64 = 500;

/// What to do about a login with the given key: without a viewer key, go to
/// the start page; with the right one, go there with the cookie; a wrong one
/// has to wait for its turn. `viewer` is the viewer key and its cookie value.
pub open spec fn login(viewer: Option<(Seq<char>, Seq<char>)>, typed: Seq<char>) -> LoginModel {
    match viewer {
        None => LoginModel::Redirect { location: "/"@, set_cookie: None },
        Some((key, cookie)) => if trimmed(typed) == key {
            LoginModel::Redirect { location: "/"@, set_cookie: Some(set_cookie_header(cookie)) }
        } else {
            LoginModel::TakeTurn
        },
    }
}

/// What to do next about a failed login; `template` is the login page.
pub open spec fn failed(stage: Failed, template: Seq<char>) -> LoginModel {
    match stage {
        Failed::Turn => LoginModel::Hold { ms: LOGIN_DELAY_MS as int },
        Failed::Held => LoginModel::Refuse {
            status: Status::Unauthorized,
            page: page_with(template, "That key was not accepted."@),
        },
    }
}

/// The `Set-Cookie` header that carries a cookie value, good for a year.
pub open spec fn set_cookie_header(value: Seq<char>) -> Seq<char> {
    cookie_prefix() + value + "; Path=/; Max-Age=31536000; HttpOnly; SameSite=Lax"@
}

/// The login page with a message in the place its template keeps for it.
pub open spec fn page_with(template: Seq<char>, message: Seq<char>) -> Seq<char> {
    replaced(template, "{{error}}"@, message)
}

fn page(template: &str, message: &str) -> (r: String)
    ensures
        r@ == page_with(template@, message@),
{
    proof {
        reveal_strlit("{{error}}");
    }
    replace(template, "{{error}}", message)
}

/// The login page, without a message.
pub fn login_page(template: &str) -> (r: String)
    ensures
        r@ == page_with(template@, seq![]),
{
    proof {
        reveal_strlit("");
        assert(""@ =~= seq![]);
    }
    page(template, "")
}

impl Inner {
    /// The cookie value that viewers must present, if any.
    pub open spec fn cookie(&self) -> Option<Seq<char>> {
        match self.viewer {
            Some((_, cookie)) => Some(cookie@),
            None => None,
        }
    }

    /// The viewer key, if any.
    pub open spec fn key(&self) -> Option<Seq<char>> {
        match self.viewer {
            Some((key, _)) => Some(key@),
            None => None,
        }
    }

    /// The viewer key and its cookie value, if any.
    pub open spec fn viewer_model(&self) -> Option<(Seq<char>, Seq<char>)> {
        match self.viewer {
            Some((key, cookie)) => Some((key@, cookie@)),
            None => None,
        }
    }

    /// The cookie value is the one that proves the viewer key.
    pub open spec fn well_formed(&self) -> bool {
        match self.viewer {
            Some((key, cookie)) => cookie@ == cookie_of(key@),
            None => true,
        }
    }

    /// A server with the given secrets and state.
    pub fn new(admin_token: String, viewer_key: Option<String>, state: Persisted) -> (r: Self)
        ensures
            r.well_formed(),
            r.admin_token == admin_token,
            r.state == state,
            match viewer_key {
                Some(key) => r.key() == Some(key@),
                None => r.viewer is None,
            },
    {
        let viewer = match viewer_key {
            Some(key) => {
                let cookie = cookie_value(key.as_str());
                Some((key, cookie))
            },
            None => None,
        };
        Inner { admin_token, viewer, state }
    }

    /// The presented token is the admin token.
    pub open spec fn admits(&self, authorization: Option<Seq<u8>>) -> bool {
        presented_token(authorization) == self.admin_token@
    }

    /// Let only the bearer of the admin token through.
    pub fn require_admin(&self, authorization: Option<&[u8]>) -> (r: Result<(), Status>)
        ensures
            r == if self.admits(header_bytes(authorization)) {
                Ok(())
            } else {
                Err::<(), Status>(Status::Unauthorized)
            },
    {
        let presented = bearer(authorization);
        if same_secret(presented.as_str(), self.admin_token.as_str()) {
            Ok(())
        } else {
            Err(Status::Unauthorized)
        }
    }

    /// Everything but the login page needs the viewers' cookie, when a viewer
    /// key is set.
    pub fn viewer_gate(&self, req: &RequestHead) -> (r: Gate)
        ensures
            r@ == gate(self.cookie(), *req),
    {
        let expect = match &self.viewer {
            Some((_, cookie)) => cookie,
            None => return Gate::Pass,
        };
        if is_text(chars_of(req.path.as_str()).as_slice(), "/login") {
            return Gate::Pass;
        }
        for k in 0..req.cookies.len()
            invariant
                self.cookie() == Some(expect@),
                req.path@ != "/login"@,
                forall|m: int|
                    0 <= m < k ==> !header_presents(#[trigger] req.cookies@[m]@, expect@),
        {
            if presents(req.cookies[k].as_slice(), expect.as_str()) {
                return Gate::Pass;
            }
        }
        if is_text(chars_of(req.method.as_str()).as_slice(), "GET") {
            if let Some(accept) = &req.accept {
                if let Some(t) = read_header(accept.as_slice()) {
                    if has_text(t.as_slice(), chars_of("text/html").as_slice()) {
                        return Gate::Redirect { location: "/login".to_owned() };
                    }
                }
            }
        }
        Gate::Refuse { status: Status::Unauthorized }
    }

    /// What to do about a login with the key that was typed.
    pub fn login_post(&self, typed: &str) -> (r: Login)
        ensures
            r@ == login(self.viewer_model(), typed@),
    {
        match &self.viewer {
            None => Login::Redirect { location: "/".to_owned(), set_cookie: None },
            Some((key, cookie)) => {
                if same_secret(trim(typed), key.as_str()) {
                    let mut header = "mp_viewer=".to_owned();
                    header.append(cookie.as_str());
                    header.append("; Path=/; Max-Age=31536000; HttpOnly; SameSite=Lax");
                    Login::Redirect { location: "/".to_owned(), set_cookie: Some(header) }
                } else {
                    Login::TakeTurn
                }
            },
        }
    }
}

/// What to do next about a failed login; `template` is the login page.
pub fn failed_login(stage: Failed, template: &str) -> (r: Login)
    ensures
        r@ == failed(stage, template@),
{
    match stage {
        Failed::Turn => Login::Hold { ms: LOGIN_DELAY_MS },
        Failed::Held => Login::Refuse {
            status: Status::Unauthorized,
            page: page(template, "That key was not accepted."),
        },
    }
}

/// A wrong key sets no cookie: it has to take its turn, and what follows that
/// is a delay and a refusal.
pub proof fn law_a_wrong_key_sets_no_cookie(
    key: Seq<char>,
    cookie: Seq<char>,
    typed: Seq<char>,
    template: Seq<char>,
)
    requires
        trimmed(typed) != key,
    ensures
        login(Some((key, cookie)), typed) == LoginModel::TakeTurn,
        failed(Failed::Turn, template) is Hold,
        failed(Failed::Held, template) matches LoginModel::Refuse { status, .. } && status
            == Status::Unauthorized,
{
}

/// The time during which one failed login had the turn.
pub struct Turn {
    pub taken_ms: int,
    pub back_ms: int,
}

/// Failed logins that had the turn one after the other, each for as long as it
/// was told to keep it.
pub open spec fn in_turn(turns: Seq<Turn>, template: Seq<char>) -> bool {
    &&& forall|i: int|
        0 <= i < turns.len() ==> (#[trigger] turns[i]).back_ms - turns[i].taken_ms >= failed(
            Failed::Turn,
            template,
        )->ms
    &&& forall|i: int, j: int|
        0 <= i < j < turns.len() ==> (#[trigger] turns[i]).back_ms <= (
        #[trigger] turns[j]).taken_ms
}

/// Failed logins are answered one at a time, half a second apart: so many of
/// them take at least half a second each, and as many as there are viewer keys
/// take more than 165 days.
pub proof fn law_guessing_is_slow(turns: Seq<Turn>, template: Seq<char>)
    requires
        in_turn(turns, template),
        turns.len() > 0,
    ensures
        forall|i: int, j: int|
            0 <= i < j < turns.len() ==> (#[trigger] turns[j]).back_ms - (
            #[trigger] turns[i]).back_ms >= 500,
        turns.last().back_ms - turns[0].taken_ms >= 500 * turns.len(),
        turns.len() >= 31 * 31 * 31 * 31 * 31 ==> turns.last().back_ms - turns[0].taken_ms > 165
            * 24 * 60 * 60 * 1000,
    decreases turns.len(),
{
    if turns.len() > 1 {
        let before = turns.drop_last();
        law_guessing_is_slow(before, template);
        let n = turns.len() as int;
        assert(turns[n - 2].back_ms <= turns[n - 1].taken_ms);
        assert(before.last() == turns[n - 2]);
    }
}

/// The viewer key logs in, as it is and with white space typed before and after
/// it, and the login sets the cookie.
pub proof fn law_the_key_logs_in(
    key: Seq<char>,
    cookie: Seq<char>,
    before: Seq<char>,
    after: Seq<char>,
)
    requires
        presentable(key),
        forall|i: int| 0 <= i < before.len() ==> white_space(#[trigger] before[i]),
        forall|i: int| 0 <= i < after.len() ==> white_space(#[trigger] after[i]),
    ensures
        login(Some((key, cookie)), before + key + after) == (LoginModel::Redirect {
            location: "/"@,
            set_cookie: Some(set_cookie_header(cookie)),
        }),
{
    lemma_trimmed_padding(key, before, after);
}

proof fn lemma_trimmed_padding(s: Seq<char>, before: Seq<char>, after: Seq<char>)
    requires
        presentable(s),
        forall|i: int| 0 <= i < before.len() ==> white_space(#[trigger] before[i]),
        forall|i: int| 0 <= i < after.len() ==> white_space(#[trigger] after[i]),
    ensures
        trimmed(before + s + after) == s,
    decreases before.len() + after.len(),
{
    let padded = before + s + after;
    if before.len() > 0 {
        lemma_trimmed_padding(s, before.drop_first(), after);
        assert(padded.drop_first() =~= before.drop_first() + s + after);
    } else {
        lemma_trimmed_fixed(s);
        assert(padded =~= s + after);
        assert(trimmed_start(padded) == padded);
        if after.len() > 0 {
            lemma_trimmed_padding(s, before, after.drop_last());
            let shorter = before + s + after.drop_last();
            assert(padded.drop_last() =~= shorter);
            assert(shorter.first() == s.first());
            assert(trimmed_start(shorter) == shorter);
        } else {
            assert(padded =~= s);
        }
    }
}

/// A cookie value in hex holds neither semicolons nor white space.
proof fn lemma_cookie_text(key: Seq<char>)
    ensures
        ({
            let c = cookie_prefix() + cookie_of(key);
            &&& c.len() >= 10
            &&& forall|i: int| 0 <= i < c.len() ==> c[i] != ';' && !white_space(#[trigger] c[i])
        }),
{
    reveal_strlit("mp_viewer=");
    let c = cookie_prefix() + cookie_of(key);
    assert forall|i: int| 0 <= i < c.len() implies c[i] != ';' && !white_space(
        #[trigger] c[i],
    ) by {
        if i >= 10 {
            lemma_hex_digits(sha256_digest(encode_utf8(key)), i - 10);
        }
    }
}

/// Logging in lets a viewer in. What a browser keeps of the `Set-Cookie` header
/// (all up to its first semicolon) is the viewers' cookie, and a request with a
/// `Cookie` header that presents it, alone or among other cookies (`before` and
/// `after`) and with white space around it or not, is served.
pub proof fn law_login_lets_a_viewer_in(
    inner: Inner,
    req: RequestHead,
    k: int,
    before: Seq<char>,
    lead: Seq<char>,
    trail: Seq<char>,
    after: Seq<char>,
)
    requires
        inner.well_formed(),
        inner.viewer is Some,
        0 <= k < req.cookies@.len(),
        before.len() == 0 || before.last() == ';',
        after.len() == 0 || after[0] == ';',
        forall|i: int| 0 <= i < lead.len() ==> white_space(#[trigger] lead[i]),
        forall|i: int| 0 <= i < trail.len() ==> white_space(#[trigger] trail[i]),
        header_text(req.cookies@[k]@) == Some(
            before + (lead + (cookie_prefix() + inner.cookie()->0) + trail) + after,
        ),
    ensures
        gate(inner.cookie(), req) == GateModel::Pass,
        ({
            let header = set_cookie_header(inner.cookie()->0);
            let n = (cookie_prefix() + inner.cookie()->0).len() as int;
            &&& is_part(header, 0, n)
            &&& header.take(n) == cookie_prefix() + inner.cookie()->0
        }),
{
    let value = inner.cookie()->0;
    let cookie = cookie_prefix() + value;
    lemma_cookie_text(inner.key()->0);
    lemma_trimmed_fixed(cookie);
    assert(!white_space(cookie[0]) && !white_space(cookie[cookie.len() - 1]));
    lemma_trimmed_padding(cookie, lead, trail);
    let part = lead + cookie + trail;
    let s = before + part + after;
    let i = before.len() as int;
    let j = i + part.len();
    assert(s.subrange(i, j) =~= part);
    assert forall|m: int| i <= m < j implies s[m] != ';' by {
        let n = m - i;
        assert(s[m] == part[n]);
        if n < lead.len() {
            assert(white_space(lead[n]));
        } else if n < lead.len() + cookie.len() {
            assert(part[n] == cookie[n - lead.len()]);
        } else {
            assert(white_space(trail[n - lead.len() - cookie.len()]));
        }
    }
    assert(part_presents(s, i, j, value));
    assert(header_text(req.cookies@[k]@)->0 == s);
    assert(header_presents(req.cookies@[k]@, value));

    reveal_strlit("; Path=/; Max-Age=31536000; HttpOnly; SameSite=Lax");
    let header = set_cookie_header(value);
    let n = cookie.len() as int;
    assert(header.take(n) =~= cookie);
    assert forall|m: int| 0 <= m < n implies header[m] != ';' by {
        assert(header[m] == cookie[m]);
    }
}

/// Without a viewer key anyone can watch; with one, anyone can reach the login
/// page.
pub proof fn law_open_doors(inner: Inner, req: RequestHead)
    ensures
        inner.viewer is None ==> gate(inner.cookie(), req) == GateModel::Pass,
        req.path@ == "/login"@ ==> gate(inner.cookie(), req) == GateModel::Pass,
{
}

/// A header that came with a request is read with every byte of its value, and
/// one that did not come has none.
pub proof fn law_header_values(value: &[u8])
    ensures
        header_bytes(Some(value)) == Some(value@),
        header_bytes(None) is None,
{
}

/// A header value reads as text exactly when every byte is a tab or from the
/// space to the tilde, and then byte by byte.
pub proof fn law_reading_headers(value: Seq<u8>)
    ensures
        header_text(value) is Some <==> forall|i: int|
            0 <= i < value.len() ==> (#[trigger] value[i] == 9 || 32 <= value[i] <= 126),
        header_text(value) matches Some(t) ==> t.len() == value.len() && forall|i: int|
            0 <= i < value.len() ==> (#[trigger] t[i]) as int == value[i] as int,
{
    if forall|i: int|
        0 <= i < value.len() ==> (#[trigger] value[i] == 9 || 32 <= value[i] <= 126) {
        assert forall|i: int| 0 <= i < value.len() implies visible_ascii(#[trigger] value[i]) by {
        }
    }
    if header_text(value) is Some {
        assert forall|i: int| 0 <= i < value.len() implies (#[trigger] value[i] == 9 || 32
            <= value[i] <= 126) by {
            assert(visible_ascii(value[i]));
        }
    }
}

/// The bearer of the admin token is whoever sends the header value `Bearer `
/// with the token behind it, character for character, and nobody else.
pub proof fn law_only_the_exact_token_admits(inner: Inner, value: Seq<u8>)
    requires
        inner.admin_token@.len() > 0,
    ensures
        !inner.admits(None),
        inner.admits(Some(value)) <==> {
            let token = inner.admin_token@;
            &&& value.len() == 7 + token.len()
            &&& value.take(7) == seq![66u8, 101u8, 97u8, 114u8, 101u8, 114u8, 32u8]
            &&& forall|i: int| 0 <= i < token.len() ==> value[7 + i] as int == (#[trigger] token[i]) as int
            &&& forall|i: int|
                0 <= i < value.len() ==> (#[trigger] value[i] == 9 || 32 <= value[i] <= 126)
        },
{
    reveal_strlit("Bearer ");
    let token = inner.admin_token@;
    let word = seq![66u8, 101u8, 97u8, 114u8, 101u8, 114u8, 32u8];
    let prefix = "Bearer "@;
    assert(prefix.len() == 7);
    assert(forall|i: int| 0 <= i < 7 ==> (#[trigger] prefix[i]) as int == word[i] as int) by {
        assert(prefix[0] == 'B' && prefix[1] == 'e' && prefix[2] == 'a' && prefix[3] == 'r');
        assert(prefix[4] == 'e' && prefix[5] == 'r' && prefix[6] == ' ');
    }
    law_reading_headers(value);
    if inner.admits(Some(value)) {
        let t = header_text(value)->0;
        assert(t.subrange(0, 7) == prefix);
        assert forall|i: int| 0 <= i < 7 implies value.take(7)[i] == #[trigger] word[i] by {
            assert(t.subrange(0, 7)[i] == t[i]);
        }
        assert(value.take(7) =~= word);
        assert forall|i: int| 0 <= i < token.len() implies value[7 + i] as int == (
        #[trigger] token[i]) as int by {
            assert(t.skip(7)[i] == t[7 + i]);
        }
    }
    if value.len() == 7 + token.len() && value.take(7) == word && (forall|i: int|
        0 <= i < token.len() ==> value[7 + i] as int == (#[trigger] token[i]) as int) && (forall|
        i: int,
    | 0 <= i < value.len() ==> (#[trigger] value[i] == 9 || 32 <= value[i] <= 126)) {
        assert(header_text(value) is Some);
        let t = header_text(value)->0;
        assert forall|i: int| 0 <= i < 7 implies t.subrange(0, 7)[i] == #[trigger] prefix[i] by {
            assert(value.take(7)[i] == value[i]);
        }
        assert(t.subrange(0, 7) =~= prefix);
        assert forall|i: int| 0 <= i < token.len() implies t.skip(7)[i] == #[trigger] token[i] by {
            assert(t[7 + i] as int == value[7 + i] as int);
        }
        assert(t.skip(7) =~= token);
    }
}

/// An empty admin token is the one that a request without a token presents: then
/// every request is admitted but those that name another after `Bearer `.
pub proof fn law_an_empty_token_asks_for_none(inner: Inner, value: Seq<u8>)
    requires
        inner.admin_token@.len() == 0,
    ensures
        inner.admits(None),
        !inner.admits(Some(value)) <==> {
            &&& value.len() > 7
            &&& value.take(7) == seq![66u8, 101u8, 97u8, 114u8, 101u8, 114u8, 32u8]
            &&& forall|i: int|
                0 <= i < value.len() ==> (#[trigger] value[i] == 9 || 32 <= value[i] <= 126)
        },
{
    reveal_strlit("Bearer ");
    let word = seq![66u8, 101u8, 97u8, 114u8, 101u8, 114u8, 32u8];
    let prefix = "Bearer "@;
    assert(forall|i: int| 0 <= i < 7 ==> (#[trigger] prefix[i]) as int == word[i] as int) by {
        assert(prefix[0] == 'B' && prefix[1] == 'e' && prefix[2] == 'a' && prefix[3] == 'r');
        assert(prefix[4] == 'e' && prefix[5] == 'r' && prefix[6] == ' ');
    }
    law_reading_headers(value);
    assert(inner.admin_token@ =~= Seq::<char>::empty());
    if header_text(value) is Some && value.len() > 7 {
        let t = header_text(value)->0;
        if t.subrange(0, 7) == prefix {
            assert forall|i: int| 0 <= i < 7 implies value.take(7)[i] == #[trigger] word[i] by {
                assert(t.subrange(0, 7)[i] == t[i]);
            }
            assert(value.take(7) =~= word);
        }
        if value.take(7) == word {
            assert forall|i: int| 0 <= i < 7 implies t.subrange(0, 7)[i] == #[trigger] prefix[i] by {
                assert(value.take(7)[i] == value[i]);
            }
            assert(t.subrange(0, 7) =~= prefix);
        }
    }
    if !inner.admits(Some(value)) {
        let token = header_text(value)->0.skip(7);
        assert(presented_token(Some(value)) == token);
        if token.len() == 0 {
            assert(token =~= Seq::<char>::empty());
        }
    }
}

/// The bytes of a `Cookie` header hold the viewers' cookie with the given value:
/// from `p` to `q` there is, between semicolons or the ends of the header,
/// nothing but `mp_viewer=` and the value from `i` on, and spaces and tabs
/// before and after it. Every byte of the header is a tab or from the space to
/// the tilde.
pub open spec fn cookie_stands(c: Seq<u8>, value: Seq<char>, p: int, i: int, q: int) -> bool {
    &&& forall|m: int| 0 <= m < c.len() ==> (#[trigger] c[m] == 9 || 32 <= c[m] <= 126)
    &&& 0 <= p <= i
    &&& i + 10 + value.len() <= q <= c.len()
    &&& p == 0 || c[p - 1] == 59
    &&& q == c.len() || c[q] == 59
    &&& forall|m: int| p <= m < i ==> (#[trigger] c[m] == 32 || c[m] == 9)
    &&& c.subrange(i, i + 10) == seq![
        109u8,
        112u8,
        95u8,
        118u8,
        105u8,
        101u8,
        119u8,
        101u8,
        114u8,
        61u8,
    ]
    &&& forall|m: int| 0 <= m < value.len() ==> c[i + 10 + m] as int == (#[trigger] value[m]) as int
    &&& forall|m: int| i + 10 + value.len() <= m < q ==> (#[trigger] c[m] == 32 || c[m] == 9)
}

proof fn lemma_prefix_bytes()
    ensures
        cookie_prefix().len() == 10,
        forall|m: int|
            0 <= m < 10 ==> (#[trigger] cookie_prefix()[m]) as int == seq![
                109u8,
                112u8,
                95u8,
                118u8,
                105u8,
                101u8,
                119u8,
                101u8,
                114u8,
                61u8,
            ][m] as int,
{
    reveal_strlit("mp_viewer=");
    let prefix = "mp_viewer="@;
    assert(prefix[0] == 'm' && prefix[1] == 'p' && prefix[2] == '_' && prefix[3] == 'v');
    assert(prefix[4] == 'i' && prefix[5] == 'e' && prefix[6] == 'w' && prefix[7] == 'e');
    assert(prefix[8] == 'r' && prefix[9] == '=');
}

/// Where a viewer key is set, a request for any other path than the login page
/// is served exactly when one of its `Cookie` headers holds the viewers' cookie
/// with the value that proves the key.
pub proof fn law_only_the_cookie_opens(inner: Inner, req: RequestHead)
    requires
        inner.well_formed(),
        inner.viewer is Some,
        req.path@ != "/login"@,
    ensures
        gate(inner.cookie(), req) == GateModel::Pass <==> exists|k: int, p: int, i: int, q: int|
            0 <= k < req.cookies@.len() && #[trigger] cookie_stands(
                req.cookies@[k]@,
                inner.cookie()->0,
                p,
                i,
                q,
            ),
{
    let value = inner.cookie()->0;
    if gate(inner.cookie(), req) == GateModel::Pass {
        let k = choose|k: int|
            0 <= k < req.cookies@.len() && header_presents(#[trigger] req.cookies@[k]@, value);
        let (p, i, q) = lemma_cookie_found(req.cookies@[k]@, value);
        assert(cookie_stands(req.cookies@[k]@, value, p, i, q));
    }
    if exists|k: int, p: int, i: int, q: int|
        0 <= k < req.cookies@.len() && #[trigger] cookie_stands(req.cookies@[k]@, value, p, i, q) {
        let (k, p, i, q) = choose|k: int, p: int, i: int, q: int|
            0 <= k < req.cookies@.len() && #[trigger] cookie_stands(
                req.cookies@[k]@,
                value,
                p,
                i,
                q,
            );
        lemma_cookie_text(inner.key()->0);
        lemma_cookie_counts(req.cookies@[k]@, value, p, i, q);
    }
}

/// Where a viewer key is set and a request presents no cookie, every path but
/// the login page is closed to it: a GET whose `Accept` header reads as some
/// text, `text/html` and some text again is sent to log in, and every other
/// request gets 401.
pub proof fn law_all_but_the_login_page_needs_the_cookie(inner: Inner, req: RequestHead)
    requires
        inner.viewer is Some,
        req.path@ != "/login"@,
        !cookie_presented(req, inner.cookie()->0),
    ensures
        gate(inner.cookie(), req) == if req.method@ == "GET"@ && req.accept is Some && (exists|
            a: Seq<char>,
            b: Seq<char>,
        | header_text(req.accept->0@) == Some(#[trigger] (a + "text/html"@ + b))) {
            GateModel::Redirect { location: "/login"@ }
        } else {
            GateModel::Refuse { status: Status::Unauthorized }
        },
{
    if req.accept is Some && header_text(req.accept->0@) is Some {
        let t = header_text(req.accept->0@)->0;
        law_holding_a_text(t, "text/html"@);
        if contains_text(t, "text/html"@) {
            let (a, b) = choose|a: Seq<char>, b: Seq<char>| t == #[trigger] (a + "text/html"@ + b);
            assert(header_text(req.accept->0@) == Some(a + "text/html"@ + b));
        }
        if exists|a: Seq<char>, b: Seq<char>|
            header_text(req.accept->0@) == Some(#[trigger] (a + "text/html"@ + b)) {
            let (a, b) = choose|a: Seq<char>, b: Seq<char>|
                header_text(req.accept->0@) == Some(#[trigger] (a + "text/html"@ + b));
            assert(t == a + "text/html"@ + b);
        }
    }
}

/// Where a viewer key is set and no `Cookie` header of a request holds the
/// viewers' cookie with the value that proves the key, every path but the login
/// page is closed to it: a GET whose `Accept` header reads as some text,
/// `text/html` and some text again is sent to log in, and every other request
/// gets 401.
pub proof fn law_strangers_are_turned_away(inner: Inner, req: RequestHead)
    requires
        inner.well_formed(),
        inner.viewer is Some,
        req.path@ != "/login"@,
        forall|k: int, p: int, i: int, q: int|
            0 <= k < req.cookies@.len() ==> !#[trigger] cookie_stands(
                req.cookies@[k]@,
                inner.cookie()->0,
                p,
                i,
                q,
            ),
    ensures
        gate(inner.cookie(), req) == if req.method@ == "GET"@ && req.accept is Some && (exists|
            a: Seq<char>,
            b: Seq<char>,
        | header_text(req.accept->0@) == Some(#[trigger] (a + "text/html"@ + b))) {
            GateModel::Redirect { location: "/login"@ }
        } else {
            GateModel::Refuse { status: Status::Unauthorized }
        },
{
    law_only_the_cookie_opens(inner, req);
    law_all_but_the_login_page_needs_the_cookie(inner, req);
}

proof fn lemma_cookie_found(c: Seq<u8>, value: Seq<char>) -> (r: (int, int, int))
    requires
        header_presents(c, value),
    ensures
        cookie_stands(c, value, r.0, r.1, r.2),
{
    lemma_prefix_bytes();
    law_reading_headers(c);
    let s = header_text(c)->0;
    let (p, q) = choose|p: int, q: int| part_presents(s, p, q, value);
    let part = s.subrange(p, q);
    let cookie = cookie_prefix() + value;
    law_trimming(part);
    let lead = choose|lead: int| #[trigger] trimmed_at(part, cookie, lead);
    let i = p + lead;
    assert forall|m: int| p <= m < i implies (#[trigger] c[m] == 32 || c[m] == 9) by {
        assert(white_space(part[m - p]));
        assert(part[m - p] == s[m] && s[m] as int == c[m] as int);
    }
    assert forall|m: int| i + cookie.len() <= m < q implies (#[trigger] c[m] == 32 || c[m] == 9) by {
        assert(white_space(part[m - p]));
        assert(part[m - p] == s[m] && s[m] as int == c[m] as int);
    }
    assert forall|m: int| 0 <= m < cookie.len() implies c[i + m] as int == (
    #[trigger] cookie[m]) as int by {
        assert(part.subrange(lead, lead + cookie.len())[m] == s[i + m]);
        assert(s[i + m] as int == c[i + m] as int);
    }
    let word = seq![109u8, 112u8, 95u8, 118u8, 105u8, 101u8, 119u8, 101u8, 114u8, 61u8];
    assert forall|m: int| 0 <= m < 10 implies c.subrange(i, i + 10)[m] == #[trigger] word[m] by {
        assert(cookie[m] == cookie_prefix()[m]);
    }
    assert(c.subrange(i, i + 10) =~= word);
    assert forall|m: int| 0 <= m < value.len() implies c[i + 10 + m] as int == (
    #[trigger] value[m]) as int by {
        assert(cookie[10 + m] == value[m]);
    }
    if p > 0 {
        assert(s[p - 1] as int == c[p - 1] as int);
    }
    if q < c.len() {
        assert(s[q] as int == c[q] as int);
    }
    (p, i, q)
}

proof fn lemma_cookie_counts(c: Seq<u8>, value: Seq<char>, p: int, i: int, q: int)
    requires
        cookie_stands(c, value, p, i, q),
        forall|m: int|
            0 <= m < (cookie_prefix() + value).len() ==> (cookie_prefix() + value)[m] != ';'
                && !white_space(#[trigger] (cookie_prefix() + value)[m]),
    ensures
        header_presents(c, value),
{
    lemma_prefix_bytes();
    law_reading_headers(c);
    let s = header_text(c)->0;
    let cookie = cookie_prefix() + value;
    let part = s.subrange(p, q);
    let lead = s.subrange(p, i);
    let trail = s.subrange(i + cookie.len(), q);
    let word = seq![109u8, 112u8, 95u8, 118u8, 105u8, 101u8, 119u8, 101u8, 114u8, 61u8];
    assert forall|m: int| 0 <= m < cookie.len() implies s[i + m] == #[trigger] cookie[m] by {
        assert(s[i + m] as int == c[i + m] as int);
        if m < 10 {
            assert(c.subrange(i, i + 10)[m] == word[m]);
            assert(cookie[m] == cookie_prefix()[m]);
        } else {
            assert(cookie[m] == value[m - 10]);
        }
    }
    assert forall|m: int| 0 <= m < lead.len() implies white_space(#[trigger] lead[m]) by {
        assert(lead[m] == s[p + m] && s[p + m] as int == c[p + m] as int);
        assert(c[p + m] == 32 || c[p + m] == 9);
    }
    assert forall|m: int| 0 <= m < trail.len() implies white_space(#[trigger] trail[m]) by {
        let n = i + cookie.len() + m;
        assert(trail[m] == s[n] && s[n] as int == c[n] as int);
        assert(c[n] == 32 || c[n] == 9);
    }
    assert(part =~= lead + cookie + trail);
    assert(!white_space(cookie[0]) && !white_space(cookie[cookie.len() - 1]));
    lemma_trimmed_fixed(cookie);
    lemma_trimmed_padding(cookie, lead, trail);
    assert forall|m: int| p <= m < q implies s[m] != ';' by {
        assert(s[m] as int == c[m] as int);
        if i <= m < i + cookie.len() {
            assert(s[i + (m - i)] == cookie[m - i]);
        } else {
            assert(c[m] == 32 || c[m] == 9);
        }
    }
    if p > 0 {
        assert(s[p - 1] as int == c[p - 1] as int);
    }
    if q < c.len() {
        assert(s[q] as int == c[q] as int);
    }
    assert(part_presents(s, p, q, value));
}

/// A login succeeds exactly when what was typed is the viewer key with nothing
/// but white space before and after it; a key that itself begins or ends with
/// white space can therefore not be typed. A login that succeeds sets
/// the cookie for a year, for every path, out of reach of scripts and of other
/// sites' requests; any other login has to take its turn.
pub proof fn law_login_takes_the_key_alone(key: Seq<char>, cookie: Seq<char>, typed: Seq<char>)
    ensures
        login(None, typed) == (LoginModel::Redirect { location: "/"@, set_cookie: None }),
        login(Some((key, cookie)), typed) == if (key.len() > 0 ==> !white_space(key.first())
            && !white_space(key.last())) && (exists|lead: int| #[trigger]
            trimmed_at(typed, key, lead)) {
            LoginModel::Redirect {
                location: "/"@,
                set_cookie: Some(
                    "mp_viewer="@ + cookie
                        + "; Path=/; Max-Age=31536000; HttpOnly; SameSite=Lax"@,
                ),
            }
        } else {
            LoginModel::TakeTurn
        },
{
    law_trimming(typed);
    let t = trimmed(typed);
    let at = choose|lead: int| #[trigger] trimmed_at(typed, t, lead);
    if t.len() > 0 {
        assert(typed.subrange(at, at + t.len())[0] == typed[at]);
    }
    if key.len() == 0 && exists|lead: int| #[trigger] trimmed_at(typed, key, lead) {
        let lead = choose|lead: int| #[trigger] trimmed_at(typed, key, lead);
        if t.len() > 0 {
            assert(white_space(typed[at]));
        }
        assert(t =~= key);
    }
    if key.len() > 0 && !white_space(key.first()) && !white_space(key.last()) && exists|lead: int|
        #[trigger] trimmed_at(typed, key, lead) {
        law_presentable_secrets(key);
        let lead = choose|lead: int| #[trigger] trimmed_at(typed, key, lead);
        let before = typed.take(lead);
        let after = typed.skip(lead + key.len());
        assert forall|i: int| 0 <= i < before.len() implies white_space(#[trigger] before[i]) by {
            assert(before[i] == typed[i]);
        }
        assert forall|i: int| 0 <= i < after.len() implies white_space(#[trigger] after[i]) by {
            assert(after[i] == typed[lead + key.len() + i]);
        }
        assert(typed.subrange(lead, lead + key.len()) == key);
        assert(typed =~= before + key + after);
        lemma_trimmed_padding(key, before, after);
    }
}

/// A failed login keeps its turn for 500 ms and is then answered 401 with the
/// login page, the message in the first place that the template keeps for it
/// and in those that follow.
pub proof fn law_failed_logins(a: Seq<char>, b: Seq<char>)
    requires
        forall|i: int|
            0 <= i < a.len() ==> (#[trigger] (a + "{{error}}"@ + b).subrange(
                i,
                i + "{{error}}"@.len(),
            )) != "{{error}}"@,
    ensures
        failed(Failed::Turn, a + "{{error}}"@ + b) == (LoginModel::Hold { ms: 500 }),
        failed(Failed::Held, a + "{{error}}"@ + b) == (LoginModel::Refuse {
            status: Status::Unauthorized,
            page: a + "That key was not accepted."@ + page_with(b, "That key was not accepted."@),
        }),
        page_with(a + "{{error}}"@ + b, seq![]) == a + page_with(b, seq![]),
{
    reveal_strlit("{{error}}");
    law_replacing_the_first(a, "{{error}}"@, b, "That key was not accepted."@);
    law_replacing_the_first(a, "{{error}}"@, b, seq![]);
    assert(a + Seq::<char>::empty() + page_with(b, seq![]) =~= a + page_with(b, seq![]));
}

/// A page that keeps no place for a message is shown as it is, to a failed login
/// too.
pub proof fn law_pages_without_a_place(template: Seq<char>, message: Seq<char>)
    requires
        forall|i: int|
            0 <= i <= template.len() - "{{error}}"@.len() ==> (#[trigger] template.subrange(
                i,
                i + "{{error}}"@.len(),
            )) != "{{error}}"@,
    ensures
        page_with(template, message) == template,
        failed(Failed::Turn, template) == (LoginModel::Hold { ms: 500 }),
        failed(Failed::Held, template) == (LoginModel::Refuse {
            status: Status::Unauthorized,
            page: template,
        }),
{
    law_replacing_nothing(template, "{{error}}"@, message);
    law_replacing_nothing(template, "{{error}}"@, "That key was not accepted."@);
}

/// The cookie value of a server is the one that proves its viewer key, and the
/// models of its answers hold what the answers hold.
pub proof fn law_server_models(inner: Inner, location: String, page: String, header: String)
    ensures
        match inner.viewer {
            Some((key, cookie)) => {
                &&& inner.well_formed() <==> cookie@ == hex(sha256_digest(encode_utf8(key@)))
                &&& inner.cookie() == Some(cookie@)
                &&& inner.key() == Some(key@)
                &&& inner.viewer_model() == Some((key@, cookie@))
            },
            None => inner.well_formed() && inner.cookie() is None && inner.key() is None
                && inner.viewer_model() is None,
        },
        (Gate::Redirect { location })@ == (GateModel::Redirect { location: location@ }),
        (Gate::Refuse { status: Status::Unauthorized })@ == (GateModel::Refuse {
            status: Status::Unauthorized,
        }),
        Gate::Pass@ == GateModel::Pass,
        (Login::Redirect { location, set_cookie: Some(header) })@ == (LoginModel::Redirect {
            location: location@,
            set_cookie: Some(header@),
        }),
        (Login::Redirect { location, set_cookie: None })@ == (LoginModel::Redirect {
            location: location@,
            set_cookie: None,
        }),
        Login::TakeTurn@ == LoginModel::TakeTurn,
        (Login::Hold { ms: 500 })@ == (LoginModel::Hold { ms: 500 }),
        (Login::Refuse { status: Status::Unauthorized, page })@ == (LoginModel::Refuse {
            status: Status::Unauthorized,
            page: page@,
        }),
{
}

} // verus!
