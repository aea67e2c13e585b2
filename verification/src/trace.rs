//! Viewers' own accounts of what their players did, bounded for the log.
use crate::access::Status;
use crate::text::chars_of;
use vstd::prelude::*;
use vstd::string::*;

verus! {

/// A viewer's own account of what its player did. Written to the log; bounded,
/// since anyone can post it.
pub struct TraceBody {
    pub id: String,
    pub ua: String,
    pub lines: Vec<String>,
}

/// How many lines one account may have.
pub const MAX_LINES: usize = 200;

/// An ASCII letter or digit.
pub open spec fn ascii_alphanumeric(c: char) -> bool {
    'a' <= c <= 'z' || 'A' <= c <= 'Z' || '0' <= c <= '9'
}

/// The ASCII letters and digits of `s`.
pub open spec fn alphanumerics(s: Seq<char>) -> Seq<char> {
    s.filter(|c: char| ascii_alphanumeric(c))
}

/// At most the first `n` characters of `s`.
pub open spec fn at_most_first(s: Seq<char>, n: int) -> Seq<char> {
    if s.len() <= n {
        s
    } else {
        s.take(n)
    }
}

/// The viewer's name in the log: the first eight letters and digits of its id.
pub open spec fn log_id(id: Seq<char>) -> Seq<char> {
    at_most_first(alphanumerics(id), 8)
}

/// The log line for the viewer's browser.
pub open spec fn browser_line(body: TraceBody) -> Seq<char> {
    log_id(body.id@) + " ua "@ + at_most_first(body.ua@, 200)
}

/// The log line for one line of the account.
pub open spec fn account_line(body: TraceBody, i: int) -> Seq<char> {
    log_id(body.id@) + " "@ + at_most_first(body.lines@[i]@, 300)
}

fn first_chars(s: &str, n: usize) -> (r: String)
    ensures
        r@ == at_most_first(s@, n as int),
{
    let cs = chars_of(s);
    let m = if cs.len() <= n {
        cs.len()
    } else {
        n
    };
    s.substring_char(0, m).to_owned()
}

fn short_id(id: &str) -> (r: String)
    ensures
        r@ == log_id(id@),
{
    let cs = chars_of(id);
    let mut r = String::new();
    let mut n: usize = 0;
    let ghost keep = |c: char| ascii_alphanumeric(c);
    for i in 0..cs.len()
        invariant
            cs@ == id@,
            keep == (|c: char| ascii_alphanumeric(c)),
            n == r@.len(),
            n <= 8,
            r@ == at_most_first(cs@.take(i as int).filter(keep), 8),
    {
        let c = cs[i];
        let ghost seen = cs@.take(i as int);
        assert(cs@.take(i + 1) == seen.push(c));
        proof {
            reveal_with_fuel(Seq::filter, 2);
            assert(seen.push(c).drop_last() == seen);
        }
        let wanted = ('a' <= c && c <= 'z') || ('A' <= c && c <= 'Z') || ('0' <= c && c <= '9');
        if wanted && n < 8 {
            r.push(c);
            n = n + 1;
        }
        assert(r@ =~= at_most_first(cs@.take(i + 1).filter(keep), 8));
    }
    assert(cs@.take(cs@.len() as int) == cs@);
    r
}

/// The status an account is answered with and the lines to log of it, the
/// browser's first; one with too many lines is refused whole.
pub fn post_trace(body: &TraceBody) -> (r: (Status, Vec<String>))
    ensures
        body.lines@.len() > 200 ==> r.0 == Status::PayloadTooLarge && r.1@.len() == 0,
        body.lines@.len() <= 200 ==> {
            &&& r.0 == Status::NoContent
            &&& r.1@.len() == body.lines@.len() + 1
            &&& r.1@[0]@ == browser_line(*body)
            &&& forall|i: int|
                0 <= i < body.lines@.len() ==> (#[trigger] r.1@[i + 1])@ == account_line(*body, i)
        },
{
    if body.lines.len() > MAX_LINES {
        return (Status::PayloadTooLarge, Vec::new());
    }
    let id = short_id(body.id.as_str());
    let mut log: Vec<String> = Vec::new();
    let mut first = id.clone();
    first.append(" ua ");
    first.append(first_chars(body.ua.as_str(), 200).as_str());
    log.push(first);
    for i in 0..body.lines.len()
        invariant
            id@ == log_id(body.id@),
            log@.len() == i + 1,
            log@[0]@ == browser_line(*body),
            forall|k: int| 0 <= k < i ==> (#[trigger] log@[k + 1])@ == account_line(*body, k),
    {
        let mut line = id.clone();
        line.append(" ");
        line.append(first_chars(body.lines[i].as_str(), 300).as_str());
        log.push(line);
    }
    (Status::NoContent, log)
}

/// Whatever a viewer posts, what is logged of it is bounded: names of at most
/// eight letters and digits, and lines of bounded length.
pub proof fn law_log_is_bounded(body: TraceBody, i: int)
    requires
        0 <= i < body.lines@.len(),
    ensures
        log_id(body.id@).len() <= 8,
        forall|k: int|
            0 <= k < log_id(body.id@).len() ==> ascii_alphanumeric(#[trigger] log_id(body.id@)[k]),
        browser_line(body).len() <= 212,
        account_line(body, i).len() <= 309,
{
    reveal_strlit(" ua ");
    reveal_strlit(" ");
    let keep = |c: char| ascii_alphanumeric(c);
    broadcast use vstd::seq_lib::group_filter_ensures;

    assert forall|k: int| 0 <= k < log_id(body.id@).len() implies ascii_alphanumeric(
        #[trigger] log_id(body.id@)[k],
    ) by {
        assert(keep(alphanumerics(body.id@)[k]));
    }
}

/// A viewer's name in the log, read character by character: it begins empty,
/// and a further character of the id is added where it is an ASCII letter or
/// digit and fewer than eight were, and passed over otherwise.
pub proof fn law_log_name(id: Seq<char>, c: char)
    ensures
        log_id(Seq::<char>::empty()).len() == 0,
        log_id(id.push(c)) == if log_id(id).len() < 8 && (48 <= c as int <= 57 || 65 <= c as int
            <= 90 || 97 <= c as int <= 122) {
            log_id(id).push(c)
        } else {
            log_id(id)
        },
{
    let keep = |c: char| ascii_alphanumeric(c);
    reveal_with_fuel(Seq::filter, 2);
    assert(id.push(c).drop_last() =~= id);
    assert(log_id(id.push(c)) =~= if log_id(id).len() < 8 && keep(c) {
        log_id(id).push(c)
    } else {
        log_id(id)
    });
}

/// The browser's line is the viewer's name, ` ua `, and the browser's account
/// of itself, cut after 200 characters.
pub proof fn law_browser_line(body: TraceBody)
    ensures
        ({
            let n = log_id(body.id@).len() as int;
            let kept = if body.ua@.len() <= 200 {
                body.ua@.len() as int
            } else {
                200
            };
            let line = browser_line(body);
            &&& line.len() == n + 4 + kept
            &&& line.take(n) == log_id(body.id@)
            &&& line.subrange(n, n + 4) == " ua "@
            &&& line.skip(n + 4) == body.ua@.take(kept)
        }),
{
    reveal_strlit(" ua ");
    let n = log_id(body.id@).len() as int;
    let kept = at_most_first(body.ua@, 200).len() as int;
    let line = browser_line(body);
    assert(line.take(n) =~= log_id(body.id@));
    assert(line.subrange(n, n + 4) =~= " ua "@);
    assert(line.skip(n + 4) =~= body.ua@.take(kept));
}

/// Every line of the account is the viewer's name, a space, and the line, cut
/// after 300 characters.
pub proof fn law_account_line(body: TraceBody, i: int)
    requires
        0 <= i < body.lines@.len(),
    ensures
        ({
            let n = log_id(body.id@).len() as int;
            let text = body.lines@[i]@;
            let kept = if text.len() <= 300 {
                text.len() as int
            } else {
                300
            };
            let line = account_line(body, i);
            &&& line.len() == n + 1 + kept
            &&& line.take(n) == log_id(body.id@)
            &&& line[n] == ' '
            &&& line.skip(n + 1) == text.take(kept)
        }),
{
    reveal_strlit(" ");
    let n = log_id(body.id@).len() as int;
    let text = body.lines@[i]@;
    let kept = at_most_first(text, 300).len() as int;
    let line = account_line(body, i);
    assert(line.take(n) =~= log_id(body.id@));
    assert(line.skip(n + 1) =~= text.take(kept));
}

} // verus!
