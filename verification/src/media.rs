//! The media directory: which names in it may be played, how they are listed,
//! and where the intermission music comes from.
use crate::secrets::ct_eq;
use crate::text::{
    ascii_lower, ascii_lowered, chars_of, is_text, lemma_utf8_determines_text, to_ascii_lower,
};
use vstd::prelude::*;
use vstd::seq_lib::*;
use vstd::set_lib::*;
use vstd::string::*;
use vstd::utf8::*;

verus! {

/// A bare file name: not empty, no leading dot (so no dot-file and no `..`),
/// no separator of any platform and no NUL.
pub open spec fn bare_name(name: Seq<char>) -> bool {
    &&& name.len() > 0
    &&& name[0] != '.'
    &&& forall|i: int|
        0 <= i < name.len() ==> name[i] != '/' && name[i] != '\\' && name[i] != '\0'
}

/// A bare file name inside the media directory: no separators, no dot-files,
/// no traversal.
pub fn valid_file_name(name: &str) -> (r: bool)
    ensures
        r == bare_name(name@),
{
    let cs = chars_of(name);
    if cs.len() == 0 || cs[0] == '.' {
        return false;
    }
    for i in 0..cs.len()
        invariant
            cs@ == name@,
            forall|k: int|
                0 <= k < i ==> name@[k] != '/' && name@[k] != '\\' && name@[k] != '\0',
    {
        if cs[i] == '/' || cs[i] == '\\' || cs[i] == '\0' {
            return false;
        }
    }
    true
}

/// The position of the last `c` in `s`, or -1 if it holds none.
pub open spec fn last_position(s: Seq<char>, c: char) -> int
    decreases s.len(),
{
    if s.len() == 0 {
        -1
    } else if s.last() == c {
        s.len() - 1
    } else {
        last_position(s.drop_last(), c)
    }
}

/// A path without the separators and the `/.` that it ends with.
pub open spec fn without_trailing(path: Seq<char>) -> Seq<char>
    decreases path.len(),
{
    let n = path.len() as int;
    if n > 0 && (path[n - 1] == '/' || (path[n - 1] == '.' && n > 1 && path[n - 2] == '/')) {
        without_trailing(path.drop_last())
    } else {
        path
    }
}

/// The last component of a `/`-separated path; empty if it has none.
pub open spec fn last_component(path: Seq<char>) -> Seq<char> {
    let p = without_trailing(path);
    p.skip(last_position(p, '/') + 1)
}

/// The extension of a path: what follows the last dot of its last component.
/// There is none if that component has no dot, has only the one it begins
/// with, or is `..`.
pub open spec fn extension_of(path: Seq<char>) -> Option<Seq<char>> {
    let name = last_component(path);
    let dot = last_position(name, '.');
    if dot <= 0 || name == ".."@ {
        None
    } else {
        Some(name.skip(dot + 1))
    }
}

/// The length of the prefix of `s` that ends with the last `c`.
fn past_last(s: &[char], c: char) -> (r: usize)
    ensures
        r == last_position(s@, c) + 1,
        r <= s.len(),
{
    let mut n: usize = s.len();
    assert(s@.take(n as int) == s@);
    while n > 0 && s[n - 1] != c
        invariant
            0 <= n <= s.len(),
            last_position(s@, c) == last_position(s@.take(n as int), c),
        decreases n,
    {
        assert(s@.take(n as int).drop_last() == s@.take(n - 1));
        n = n - 1;
    }
    assert(n > 0 ==> s@.take(n as int).last() == c);
    n
}

/// The extension of a path.
pub fn extension(path: &str) -> (r: Option<Vec<char>>)
    ensures
        match r {
            Some(e) => extension_of(path@) == Some(e@),
            None => extension_of(path@) is None,
        },
{
    let mut cs = chars_of(path);
    while cs.len() > 0 && (cs[cs.len() - 1] == '/' || (cs[cs.len() - 1] == '.' && cs.len() > 1
        && cs[cs.len() - 2] == '/'))
        invariant
            without_trailing(path@) == without_trailing(cs@),
        decreases cs.len(),
    {
        let ghost before = cs@;
        cs.pop();
        assert(cs@ == before.drop_last());
    }
    let start = past_last(cs.as_slice(), '/');
    let name = cs.split_off(start);
    assert(name@ == last_component(path@));
    let dot = past_last(name.as_slice(), '.');
    if dot <= 1 || is_text(name.as_slice(), "..") {
        return None;
    }
    let mut rest = name;
    let e = rest.split_off(dot);
    assert(e@ == last_component(path@).skip(dot as int));
    Some(e)
}

/// The extensions browsers can generally play natively.
pub open spec fn playable_extension(e: Seq<char>) -> bool {
    e == "mp4"@ || e == "m4v"@ || e == "webm"@ || e == "mov"@ || e == "ogv"@ || e == "ogg"@
}

/// A name whose extension, in whatever case, is one browsers can play.
pub open spec fn playable_name(name: Seq<char>) -> bool {
    match extension_of(name) {
        Some(e) => playable_extension(ascii_lowered(e)),
        None => false,
    }
}

/// Whether a name's extension is one browsers can generally play natively.
pub fn playable(name: &str) -> (r: bool)
    ensures
        r == playable_name(name@),
{
    match extension(name) {
        Some(e) => {
            let e = to_ascii_lower(e.as_slice());
            let e = e.as_slice();
            is_text(e, "mp4") || is_text(e, "m4v") || is_text(e, "webm") || is_text(e, "mov")
                || is_text(e, "ogv") || is_text(e, "ogg")
        },
        None => false,
    }
}

proof fn lemma_absent(s: Seq<char>, c: char)
    requires
        forall|i: int| 0 <= i < s.len() ==> s[i] != c,
    ensures
        last_position(s, c) == -1,
    decreases s.len(),
{
    if s.len() > 0 {
        lemma_absent(s.drop_last(), c);
    }
}

/// A bare name stays inside the media directory: it is a single component of a
/// path, and neither `.` nor `..`.
pub proof fn law_a_bare_name_is_one_component(name: Seq<char>)
    requires
        bare_name(name),
    ensures
        last_component(name) == name,
        name != "."@,
        name != ".."@,
{
    reveal_strlit(".");
    reveal_strlit("..");
    lemma_absent(name, '/');
    assert(without_trailing(name) == name);
    assert(name.skip(0) =~= name);
}

proof fn lemma_lower_position(s: Seq<char>, c: char)
    requires
        c == '/' || c == '.',
    ensures
        last_position(ascii_lowered(s), c) == last_position(s, c),
        -1 <= last_position(s, c) < s.len(),
    decreases s.len(),
{
    if s.len() > 0 {
        lemma_lower_position(s.drop_last(), c);
        assert(ascii_lowered(s).drop_last() =~= ascii_lowered(s.drop_last()));
        assert(ascii_lowered(s).last() == ascii_lower(s.last()));
    }
}

proof fn lemma_lower_trailing(path: Seq<char>)
    ensures
        without_trailing(ascii_lowered(path)) == ascii_lowered(without_trailing(path)),
    decreases path.len(),
{
    if path.len() > 0 {
        lemma_lower_trailing(path.drop_last());
        assert(ascii_lowered(path).drop_last() =~= ascii_lowered(path.drop_last()));
        let n = path.len() as int;
        assert(ascii_lowered(path)[n - 1] == ascii_lower(path[n - 1]));
        if n > 1 {
            assert(ascii_lowered(path)[n - 2] == ascii_lower(path[n - 2]));
        }
    }
}

proof fn lemma_lower_extension(path: Seq<char>)
    ensures
        extension_of(ascii_lowered(path)) == match extension_of(path) {
            Some(e) => Some(ascii_lowered(e)),
            None => None,
        },
{
    reveal_strlit("..");
    let p = without_trailing(path);
    lemma_lower_trailing(path);
    lemma_lower_position(p, '/');
    let at = last_position(p, '/') + 1;
    let name = last_component(path);
    assert(ascii_lowered(p).skip(at) =~= ascii_lowered(name));
    lemma_lower_position(name, '.');
    let dot = last_position(name, '.');
    assert(ascii_lowered(name).skip(dot + 1) =~= ascii_lowered(name.skip(dot + 1)));
    assert(ascii_lowered(name) == ".."@ <==> name == ".."@) by {
        if name.len() == 2 {
            assert(ascii_lowered(name)[0] == ascii_lower(name[0]));
            assert(ascii_lowered(name)[1] == ascii_lower(name[1]));
        }
        if name == ".."@ {
            assert(ascii_lowered(name) =~= ".."@);
        }
        if ascii_lowered(name) == ".."@ {
            assert(name =~= ".."@);
        }
    }
}

/// Whether a name is playable does not depend on the case of its ASCII letters.
pub proof fn law_playable_ignores_case(a: Seq<char>, b: Seq<char>)
    requires
        ascii_lowered(a) == ascii_lowered(b),
    ensures
        playable_name(a) == playable_name(b),
{
    lemma_lower_extension(a);
    lemma_lower_extension(b);
}

/// A name is bare exactly when it has a first character, that is no full stop
/// (46), and none is a slash (47), a backslash (92) or NUL.
pub proof fn law_bare_names(name: Seq<char>)
    ensures
        bare_name(name) <==> {
            &&& name.len() > 0
            &&& name.first() as int != 46
            &&& !exists|i: int|
                0 <= i < name.len() && ((#[trigger] name[i]) as int == 47 || name[i] as int == 92
                    || name[i] as int == 0)
        },
{
}

proof fn lemma_last_position(s: Seq<char>, c: char)
    ensures
        -1 <= last_position(s, c) < s.len(),
        last_position(s, c) >= 0 ==> s[last_position(s, c)] == c,
        forall|i: int| last_position(s, c) < i < s.len() ==> s[i] != c,
    decreases s.len(),
{
    if s.len() > 0 && s.last() != c {
        let rest = s.drop_last();
        lemma_last_position(rest, c);
        assert forall|i: int| last_position(s, c) < i < s.len() implies s[i] != c by {
            if i < s.len() - 1 {
                assert(s[i] == rest[i]);
            }
        }
    }
}

/// The extension of a name is what follows its last full stop, where something
/// stands before that, and the name is not `..`.
pub proof fn law_extension_of_a_name(name: Seq<char>, e: Seq<char>)
    requires
        forall|i: int| 0 <= i < name.len() ==> name[i] != '/',
    ensures
        extension_of(name) == Some(e) <==> (name != ".."@ && (forall|i: int|
            0 <= i < e.len() ==> e[i] != '.') && exists|stem: Seq<char>|
            stem.len() > 0 && name == #[trigger] (stem + "."@ + e)),
{
    reveal_strlit(".");
    lemma_absent(name, '/');
    assert(without_trailing(name) == name);
    assert(name.skip(0) =~= name);
    lemma_last_position(name, '.');
    let dot = last_position(name, '.');
    if extension_of(name) == Some(e) {
        let stem = name.take(dot);
        assert(name =~= stem + "."@ + e);
        assert forall|i: int| 0 <= i < e.len() implies e[i] != '.' by {
            assert(e[i] == name[dot + 1 + i]);
        }
    }
    if name != ".."@ && (forall|i: int| 0 <= i < e.len() ==> e[i] != '.')
        && exists|stem: Seq<char>| stem.len() > 0 && name == #[trigger] (stem + "."@ + e) {
        let stem = choose|stem: Seq<char>| stem.len() > 0 && name == #[trigger] (stem + "."@ + e);
        let at = stem.len() as int;
        assert(name[at] == '.');
        assert(dot == at) by {
            if dot > at {
                assert(name[dot] == e[dot - at - 1]);
            }
        }
        assert(name.skip(dot + 1) =~= e);
    }
}

/// The extension of a path is that of its last component: separators and `/.`
/// at its end do not count, nor does what stands before the last separator.
pub proof fn law_extension_of_a_path(path: Seq<char>, name: Seq<char>)
    requires
        name.len() > 0,
        name != "."@,
        forall|i: int| 0 <= i < name.len() ==> name[i] != '/',
    ensures
        extension_of(path + "/"@ + name) == extension_of(name),
        extension_of(path + "/"@) == extension_of(path),
        extension_of(path + "/."@) == extension_of(path),
{
    reveal_strlit(".");
    reveal_strlit("/");
    reveal_strlit("/.");
    reveal_with_fuel(without_trailing, 3);
    assert((path + "/"@).drop_last() =~= path);
    assert((path + "/."@).drop_last() =~= path + "/"@);
    let p = path + "/"@ + name;
    let n = p.len() as int;
    assert(p[n - 1] == name.last());
    if p[n - 1] == '.' && p[n - 2] == '/' {
        if name.len() > 1 {
            assert(p[n - 2] == name[name.len() - 2]);
        }
        assert(name =~= "."@);
    }
    assert(without_trailing(p) == p);
    lemma_last_position(p, '/');
    let at = last_position(p, '/');
    assert(p[path.len() as int] == '/');
    assert(at == path.len()) by {
        if at > path.len() {
            assert(p[at] == name[at - path.len() - 1]);
        }
    }
    assert(p.skip(at + 1) =~= name);
    lemma_absent(name, '/');
    assert(without_trailing(name) == name);
    assert(name.skip(0) =~= name);
}

/// A path is playable exactly when its extension, its capitals made small, is
/// one of mp4, m4v, webm, mov, ogv and ogg.
pub proof fn law_playable_paths(path: Seq<char>)
    ensures
        playable_name(path) <==> exists|e: Seq<char>|
            extension_of(path) == Some(e) && (#[trigger] ascii_lowered(e) == "mp4"@
                || ascii_lowered(e) == "m4v"@ || ascii_lowered(e) == "webm"@ || ascii_lowered(e)
                == "mov"@ || ascii_lowered(e) == "ogv"@ || ascii_lowered(e) == "ogg"@),
{
    if playable_name(path) {
        let e = extension_of(path)->0;
        assert(playable_extension(ascii_lowered(e)));
    }
}

/// A name is offered exactly when it is bare and is something, a full stop, and
/// one of the six extensions in whatever case.
pub proof fn law_offered_names(name: Seq<char>)
    ensures
        offered_name(name) <==> {
            &&& name.len() > 0
            &&& name[0] != '.'
            &&& forall|i: int|
                0 <= i < name.len() ==> name[i] != '/' && name[i] != '\\' && name[i] != '\0'
            &&& exists|stem: Seq<char>, e: Seq<char>|
                name == #[trigger] (stem + "."@ + e) && (ascii_lowered(e) == "mp4"@
                    || ascii_lowered(e) == "m4v"@ || ascii_lowered(e) == "webm"@ || ascii_lowered(
                    e,
                ) == "mov"@ || ascii_lowered(e) == "ogv"@ || ascii_lowered(e) == "ogg"@)
        },
{
    reveal_strlit(".");
    reveal_strlit("..");
    law_playable_paths(name);
    if offered_name(name) {
        let e = choose|e: Seq<char>|
            extension_of(name) == Some(e) && (#[trigger] ascii_lowered(e) == "mp4"@
                || ascii_lowered(e) == "m4v"@ || ascii_lowered(e) == "webm"@ || ascii_lowered(e)
                == "mov"@ || ascii_lowered(e) == "ogv"@ || ascii_lowered(e) == "ogg"@);
        law_extension_of_a_name(name, e);
    }
    if bare_name(name) && exists|stem: Seq<char>, e: Seq<char>|
        name == #[trigger] (stem + "."@ + e) && six_extensions(e) {
        let (stem, e) = choose|stem: Seq<char>, e: Seq<char>|
            name == #[trigger] (stem + "."@ + e) && six_extensions(e);
        assert(stem.len() > 0) by {
            if stem.len() == 0 {
                assert(name[0] == '.');
            }
        }
        lemma_six_extensions(e);
        law_extension_of_a_name(name, e);
        assert(extension_of(name) == Some(e));
        assert(playable_name(name));
    }
}

spec fn six_extensions(e: Seq<char>) -> bool {
    ascii_lowered(e) == "mp4"@ || ascii_lowered(e) == "m4v"@ || ascii_lowered(e) == "webm"@
        || ascii_lowered(e) == "mov"@ || ascii_lowered(e) == "ogv"@ || ascii_lowered(e) == "ogg"@
}

proof fn lemma_six_extensions(e: Seq<char>)
    requires
        six_extensions(e),
    ensures
        forall|i: int| 0 <= i < e.len() ==> e[i] != '.',
{
    reveal_strlit("mp4");
    reveal_strlit("m4v");
    reveal_strlit("webm");
    reveal_strlit("mov");
    reveal_strlit("ogv");
    reveal_strlit("ogg");
    assert forall|i: int| 0 <= i < e.len() implies e[i] != '.' by {
        let low = ascii_lowered(e);
        assert(low.len() == e.len());
        assert(low[i] == ascii_lower(e[i]));
        assert(i == 0 || i == 1 || i == 2 || i == 3);
        assert(low[i] != '.') by {
            if low == "mp4"@ {
                assert("mp4"@[0] == 'm' && "mp4"@[1] == 'p' && "mp4"@[2] == '4');
            } else if low == "m4v"@ {
                assert("m4v"@[0] == 'm' && "m4v"@[1] == '4' && "m4v"@[2] == 'v');
            } else if low == "webm"@ {
                assert("webm"@[0] == 'w' && "webm"@[1] == 'e');
                assert("webm"@[2] == 'b' && "webm"@[3] == 'm');
            } else if low == "mov"@ {
                assert("mov"@[0] == 'm' && "mov"@[1] == 'o' && "mov"@[2] == 'v');
            } else if low == "ogv"@ {
                assert("ogv"@[0] == 'o' && "ogv"@[1] == 'g' && "ogv"@[2] == 'v');
            } else {
                assert("ogg"@[0] == 'o' && "ogg"@[1] == 'g' && "ogg"@[2] == 'g');
            }
        }
    }
}

/// Byte sequences in lexicographic order.
pub open spec fn bytes_le(a: Seq<u8>, b: Seq<u8>) -> bool
    decreases a.len(),
{
    ||| a.len() == 0
    ||| b.len() > 0 && a[0] < b[0]
    ||| b.len() > 0 && a[0] == b[0] && bytes_le(a.drop_first(), b.drop_first())
}

/// The order of names: that of their UTF-8 bytes.
pub open spec fn name_le(a: Seq<char>, b: Seq<char>) -> bool {
    bytes_le(encode_utf8(a), encode_utf8(b))
}

/// `a` comes strictly before `b`.
pub open spec fn name_lt(a: Seq<char>, b: Seq<char>) -> bool {
    name_le(a, b) && a != b
}

proof fn lemma_bytes_le_total(a: Seq<u8>, b: Seq<u8>)
    ensures
        bytes_le(a, b) || bytes_le(b, a),
    decreases a.len(),
{
    if a.len() > 0 && b.len() > 0 {
        lemma_bytes_le_total(a.drop_first(), b.drop_first());
    }
}

proof fn lemma_bytes_le_transitive(a: Seq<u8>, b: Seq<u8>, c: Seq<u8>)
    requires
        bytes_le(a, b),
        bytes_le(b, c),
    ensures
        bytes_le(a, c),
    decreases a.len(),
{
    if a.len() > 0 && b.len() > 0 && c.len() > 0 && a[0] == b[0] && b[0] == c[0] {
        lemma_bytes_le_transitive(a.drop_first(), b.drop_first(), c.drop_first());
    }
}

proof fn lemma_bytes_le_antisymmetric(a: Seq<u8>, b: Seq<u8>)
    requires
        bytes_le(a, b),
        bytes_le(b, a),
    ensures
        a == b,
    decreases a.len(),
{
    if a.len() > 0 && b.len() > 0 {
        lemma_bytes_le_antisymmetric(a.drop_first(), b.drop_first());
        assert(a =~= seq![a[0]] + a.drop_first());
        assert(b =~= seq![b[0]] + b.drop_first());
    } else {
        assert(a =~= b);
    }
}

/// The order of names is total, transitive and antisymmetric.
pub proof fn lemma_name_order(a: Seq<char>, b: Seq<char>, c: Seq<char>)
    ensures
        name_le(a, b) || name_le(b, a),
        name_le(a, b) && name_le(b, c) ==> name_le(a, c),
        name_le(a, b) && name_le(b, a) ==> a == b,
{
    lemma_bytes_le_total(encode_utf8(a), encode_utf8(b));
    if name_le(a, b) && name_le(b, c) {
        lemma_bytes_le_transitive(encode_utf8(a), encode_utf8(b), encode_utf8(c));
    }
    if name_le(a, b) && name_le(b, a) {
        lemma_bytes_le_antisymmetric(encode_utf8(a), encode_utf8(b));
        lemma_utf8_determines_text(a, b);
    }
}

/// One name comes before another exactly when its UTF-8 bytes do: up to some
/// place they are the same, and there either the first name ends or its byte is
/// the smaller one.
pub proof fn law_name_order_goes_by_bytes(a: Seq<char>, b: Seq<char>)
    ensures
        name_le(a, b) <==> exists|k: int|
            #![trigger encode_utf8(a).take(k)]
            0 <= k <= encode_utf8(a).len() && k <= encode_utf8(b).len() && encode_utf8(a).take(k)
                == encode_utf8(b).take(k) && (k == encode_utf8(a).len() || (k < encode_utf8(b).len()
                && encode_utf8(a)[k] < encode_utf8(b)[k])),
{
    let x = encode_utf8(a);
    let y = encode_utf8(b);
    if name_le(a, b) {
        let k = lemma_bytes_differ(x, y);
        assert(x.take(k) == y.take(k));
    }
    if exists|k: int|
        #![trigger x.take(k)]
        0 <= k <= x.len() && k <= y.len() && x.take(k) == y.take(k) && (k == x.len() || (k < y.len()
            && x[k] < y[k])) {
        let k = choose|k: int|
            #![trigger x.take(k)]
            0 <= k <= x.len() && k <= y.len() && x.take(k) == y.take(k) && (k == x.len() || (k
                < y.len() && x[k] < y[k]));
        lemma_bytes_before(x, y, k);
    }
}

proof fn lemma_bytes_differ(x: Seq<u8>, y: Seq<u8>) -> (k: int)
    requires
        bytes_le(x, y),
    ensures
        0 <= k <= x.len() && k <= y.len() && x.take(k) == y.take(k) && (k == x.len() || (k < y.len()
            && x[k] < y[k])),
    decreases x.len(),
{
    if x.len() > 0 && y.len() > 0 && x[0] == y[0] {
        let m = lemma_bytes_differ(x.drop_first(), y.drop_first());
        assert(x.take(m + 1) =~= seq![x[0]] + x.drop_first().take(m));
        assert(y.take(m + 1) =~= seq![y[0]] + y.drop_first().take(m));
        m + 1
    } else {
        assert(x.take(0) =~= y.take(0));
        0
    }
}

proof fn lemma_bytes_before(x: Seq<u8>, y: Seq<u8>, k: int)
    requires
        0 <= k <= x.len() && k <= y.len() && x.take(k) == y.take(k) && (k == x.len() || (k < y.len()
            && x[k] < y[k])),
    ensures
        bytes_le(x, y),
    decreases x.len(),
{
    if k > 0 {
        assert(x[0] == x.take(k)[0] && y[0] == y.take(k)[0]);
        assert(x.drop_first().take(k - 1) =~= x.take(k).drop_first());
        assert(y.drop_first().take(k - 1) =~= y.take(k).drop_first());
        lemma_bytes_before(x.drop_first(), y.drop_first(), k - 1);
    }
}

/// Whether one name comes before another or is the same.
pub fn at_most(a: &str, b: &str) -> (r: bool)
    ensures
        r == name_le(a@, b@),
{
    let x = a.as_bytes();
    let y = b.as_bytes();
    let mut i: usize = 0;
    assert(x@.skip(0) == x@);
    assert(y@.skip(0) == y@);
    while i < x.len() && i < y.len() && x[i] == y[i]
        invariant
            0 <= i <= x.len(),
            i <= y.len(),
            bytes_le(x@, y@) == bytes_le(x@.skip(i as int), y@.skip(i as int)),
        decreases x.len() - i,
    {
        assert(x@.skip(i as int).drop_first() == x@.skip(i + 1));
        assert(y@.skip(i as int).drop_first() == y@.skip(i + 1));
        i = i + 1;
    }
    i == x.len() || (i < y.len() && x[i] < y[i])
}

/// What the file system says of an entry of the media directory.
pub struct FileMeta {
    pub is_file: bool,
    pub len: u64,
}

/// An entry of the media directory, with its metadata if it could be read.
pub struct DirEntry {
    pub name: String,
    pub meta: Option<FileMeta>,
}

/// A file offered to the administrator.
#[derive(Debug, PartialEq, Eq)]
pub struct FileEntry {
    pub name: String,
    pub size: u64,
}

impl View for FileEntry {
    type V = (Seq<char>, u64);

    open spec fn view(&self) -> (Seq<char>, u64) {
        (self.name@, self.size)
    }
}

/// A name the administrator may schedule: bare and playable.
pub open spec fn offered_name(name: Seq<char>) -> bool {
    bare_name(name) && playable_name(name)
}

/// An entry is offered if its name is and it is known to be a regular file.
pub open spec fn offered(e: DirEntry) -> bool {
    offered_name(e.name@) && e.meta is Some && e.meta->0.is_file
}

/// The offered entries, by name and size, in the order of the directory.
pub open spec fn offered_files(entries: Seq<DirEntry>) -> Seq<(Seq<char>, u64)>
    decreases entries.len(),
{
    if entries.len() == 0 {
        seq![]
    } else {
        let before = offered_files(entries.drop_last());
        let e = entries.last();
        if offered(e) {
            before.push((e.name@, e.meta->0.len))
        } else {
            before
        }
    }
}

/// `order` is a permutation of the positions of `input`, `out` lists `input`
/// in that order, and it goes by name, entries of one name keeping their order.
pub open spec fn sorted_through(
    order: Seq<int>,
    out: Seq<(Seq<char>, u64)>,
    input: Seq<(Seq<char>, u64)>,
) -> bool {
    &&& order.len() == input.len()
    &&& out.len() == input.len()
    &&& forall|i: int|
        0 <= i < order.len() ==> 0 <= #[trigger] order[i] < input.len() && out[i] == input[order[i]]
    &&& forall|i: int, j: int|
        #![trigger order[i], order[j]]
        0 <= i < j < order.len() ==> order[i] != order[j] && (name_lt(out[i].0, out[j].0) || (
        out[i].0 == out[j].0 && order[i] < order[j]))
}

/// `out` is `input` sorted by name, entries of one name keeping their order.
pub open spec fn stably_sorted(
    out: Seq<(Seq<char>, u64)>,
    input: Seq<(Seq<char>, u64)>,
) -> bool {
    exists|order: Seq<int>| sorted_through(order, out, input)
}

/// What entries stand for: their names and sizes.
pub open spec fn listing(files: Seq<FileEntry>) -> Seq<(Seq<char>, u64)> {
    files.map_values(|f: FileEntry| f@)
}

proof fn lemma_insertion(
    order: Seq<int>,
    out: Seq<(Seq<char>, u64)>,
    input: Seq<(Seq<char>, u64)>,
    at: int,
    x: (Seq<char>, u64),
)
    requires
        sorted_through(order, out, input),
        0 <= at <= out.len(),
        at > 0 ==> name_le(out[at - 1].0, x.0),
        forall|k: int| at <= k < out.len() ==> !name_le(#[trigger] out[k].0, x.0),
    ensures
        sorted_through(
            order.insert(at, input.len() as int),
            out.insert(at, x),
            input.push(x),
        ),
{
    let n = input.len() as int;
    let order2 = order.insert(at, n);
    let out2 = out.insert(at, x);
    let input2 = input.push(x);
    assert forall|i: int| 0 <= i < order2.len() implies 0 <= #[trigger] order2[i] < input2.len()
        && out2[i] == input2[order2[i]] by {
        if i < at {
            assert(order2[i] == order[i]);
        } else if i > at {
            assert(order2[i] == order[i - 1]);
        }
    }
    assert forall|i: int, j: int|
        #![trigger order2[i], order2[j]]
        0 <= i < j < order2.len() implies order2[i] != order2[j] && (name_lt(out2[i].0, out2[j].0)
        || (out2[i].0 == out2[j].0 && order2[i] < order2[j])) by {
        let i0 = if i < at { i } else { i - 1 };
        let j0 = if j < at { j } else { j - 1 };
        if i != at && j != at {
            assert(order2[i] == order[i0] && order2[j] == order[j0]);
            assert(out2[i] == out[i0] && out2[j] == out[j0]);
        } else if j == at {
            assert(order2[i] == order[i] && order2[j] == n);
            if i < at - 1 {
                assert(order[i] != order[at - 1]);
                lemma_name_order(out[i].0, out[at - 1].0, x.0);
            }
        } else {
            assert(order2[i] == n && order2[j] == order[j0]);
            lemma_name_order(out[j0].0, x.0, x.0);
            lemma_name_order(x.0, x.0, x.0);
        }
    }
}

/// The files of the media directory that are offered, by name.
pub fn offer(entries: &[DirEntry]) -> (r: Vec<FileEntry>)
    ensures
        stably_sorted(listing(r@), offered_files(entries@)),
{
    let mut out: Vec<FileEntry> = Vec::new();
    let ghost mut order: Seq<int> = Seq::empty();
    assert(entries@.take(0) == Seq::<DirEntry>::empty());
    for n in 0..entries.len()
        invariant
            sorted_through(order, listing(out@), offered_files(entries@.take(n as int))),
    {
        let e = &entries[n];
        let ghost input = offered_files(entries@.take(n as int));
        assert(entries@.take(n + 1).drop_last() == entries@.take(n as int));
        let size: Option<u64> = match &e.meta {
            Some(m) => if m.is_file {
                Some(m.len)
            } else {
                None
            },
            None => None,
        };
        if valid_file_name(e.name.as_str()) && playable(e.name.as_str()) {
            if let Some(size) = size {
                let mut at: usize = out.len();
                while at > 0 && !at_most(out[at - 1].name.as_str(), e.name.as_str())
                    invariant
                        0 <= at <= out.len(),
                        forall|k: int|
                            at <= k < out.len() ==> !name_le(
                                #[trigger] listing(out@)[k].0,
                                e.name@,
                            ),
                    decreases at,
                {
                    at = at - 1;
                }
                let ghost before = listing(out@);
                let entry = FileEntry { name: e.name.clone(), size };
                let ghost x = entry@;
                out.insert(at, entry);
                proof {
                    lemma_insertion(order, before, input, at as int, x);
                    assert(listing(out@) =~= before.insert(at as int, x));
                    order = order.insert(at as int, input.len() as int);
                }
            }
        }
    }
    assert(entries@.take(entries@.len() as int) == entries@);
    out
}

proof fn lemma_order_is_onto(
    order: Seq<int>,
    out: Seq<(Seq<char>, u64)>,
    input: Seq<(Seq<char>, u64)>,
    x: int,
)
    requires
        sorted_through(order, out, input),
        0 <= x < input.len(),
    ensures
        order.contains(x),
{
    let n = input.len() as int;
    let range = set_int_range(0, n);
    assert(order.no_duplicates()) by {
        assert forall|i: int, j: int|
            0 <= i < order.len() && 0 <= j < order.len() && i != j implies order[i] != order[j] by {
            if i < j {
                assert(order[i] != order[j]);
            } else {
                assert(order[j] != order[i]);
            }
        }
    }
    order.unique_seq_to_set();
    seq_to_set_is_finite(order);
    lemma_int_range(0, n);
    assert(order.to_set().subset_of(range));
    lemma_subset_equality(order.to_set(), range);
    assert(range.contains(x));
}

/// The entry at `k` belongs in the listing: it has a bare and playable name, its
/// metadata could be read, and it is a regular file, whatever its length.
pub open spec fn belongs(entries: Seq<DirEntry>, k: int) -> bool {
    &&& 0 <= k < entries.len()
    &&& bare_name(entries[k].name@)
    &&& playable_name(entries[k].name@)
    &&& entries[k].meta is Some
    &&& entries[k].meta->0.is_file
}

/// `at` gives, for each file listed, the place of its entry in the directory:
/// every entry that belongs in the listing is there once, with its name and
/// length, and no other; names go up, and of one name the earlier entry is first.
pub open spec fn lists(
    at: Seq<int>,
    out: Seq<(Seq<char>, u64)>,
    entries: Seq<DirEntry>,
) -> bool {
    &&& at.len() == out.len()
    &&& forall|i: int|
        0 <= i < at.len() ==> belongs(entries, #[trigger] at[i]) && out[i].0
            == entries[at[i]].name@ && out[i].1 == entries[at[i]].meta->0.len
    &&& forall|k: int| #[trigger] belongs(entries, k) ==> at.contains(k)
    &&& forall|i: int, j: int|
        #![trigger at[i], at[j]]
        0 <= i < j < at.len() ==> at[i] != at[j] && name_le(out[i].0, out[j].0) && (out[i].0
            == out[j].0 ==> at[i] < at[j])
}

/// The listing holds every entry that belongs there, once, with its name and
/// length, and no other, in the order of names.
pub proof fn law_listing_is_sorted_and_complete(
    out: Seq<(Seq<char>, u64)>,
    entries: Seq<DirEntry>,
)
    requires
        stably_sorted(out, offered_files(entries)),
    ensures
        exists|at: Seq<int>| lists(at, out, entries),
        out.len() == offered_files(entries).len(),
        forall|f: (Seq<char>, u64)| #[trigger]
            out.contains(f) <==> offered_files(entries).contains(f),
        forall|i: int, j: int|
            0 <= i < j < out.len() ==> name_le(#[trigger] out[i].0, #[trigger] out[j].0),
        forall|f: (Seq<char>, u64)| #[trigger]
            out.contains(f) <==> exists|k: int|
                0 <= k < entries.len() && bare_name((#[trigger] entries[k]).name@)
                    && playable_name(entries[k].name@) && entries[k].meta is Some
                    && entries[k].meta->0.is_file && f == (
                    entries[k].name@,
                    entries[k].meta->0.len,
                ),
{
    let input = offered_files(entries);
    let place = offered_places(entries);
    lemma_offered_places(entries);
    let order = choose|order: Seq<int>| sorted_through(order, out, input);
    let at = Seq::new(order.len(), |i: int| place[order[i]]);
    assert forall|i: int| 0 <= i < at.len() implies belongs(entries, #[trigger] at[i]) && out[i].0
        == entries[at[i]].name@ && out[i].1 == entries[at[i]].meta->0.len by {
        assert(at[i] == place[order[i]]);
        assert(out[i] == input[order[i]]);
    }
    assert forall|k: int| #[trigger] belongs(entries, k) implies at.contains(k) by {
        assert(place.contains(k));
        let m = choose|m: int| 0 <= m < place.len() && place[m] == k;
        lemma_order_is_onto(order, out, input, m);
        let i = choose|i: int| 0 <= i < order.len() && order[i] == m;
        assert(at[i] == k);
    }
    assert forall|i: int, j: int|
        #![trigger at[i], at[j]]
        0 <= i < j < at.len() implies at[i] != at[j] && name_le(out[i].0, out[j].0) && (out[i].0
        == out[j].0 ==> at[i] < at[j]) by {
        assert(order[i] != order[j]);
        assert(place[order[i]] != place[order[j]]);
        lemma_name_order(out[i].0, out[i].0, out[i].0);
    }
    assert(lists(at, out, entries));
    assert forall|i: int, j: int| 0 <= i < j < out.len() implies name_le(
        #[trigger] out[i].0,
        #[trigger] out[j].0,
    ) by {
        assert(at[i] != at[j]);
    }
    assert forall|f: (Seq<char>, u64)| #[trigger] out.contains(f) <==> exists|k: int|
        0 <= k < entries.len() && bare_name((#[trigger] entries[k]).name@) && playable_name(
            entries[k].name@,
        ) && entries[k].meta is Some && entries[k].meta->0.is_file && f == (
            entries[k].name@,
            entries[k].meta->0.len,
        ) by {
        if out.contains(f) {
            let i = choose|i: int| 0 <= i < out.len() && out[i] == f;
            assert(belongs(entries, at[i]));
        }
        if exists|k: int|
            0 <= k < entries.len() && bare_name((#[trigger] entries[k]).name@) && playable_name(
                entries[k].name@,
            ) && entries[k].meta is Some && entries[k].meta->0.is_file && f == (
                entries[k].name@,
                entries[k].meta->0.len,
            ) {
            let k = choose|k: int|
                0 <= k < entries.len() && bare_name((#[trigger] entries[k]).name@)
                    && playable_name(entries[k].name@) && entries[k].meta is Some
                    && entries[k].meta->0.is_file && f == (
                    entries[k].name@,
                    entries[k].meta->0.len,
                );
            assert(belongs(entries, k));
            let i = choose|i: int| 0 <= i < at.len() && at[i] == k;
            assert(out[i] == f);
        }
    }
    assert forall|f: (Seq<char>, u64)| #[trigger] out.contains(f) <==> input.contains(f) by {
        lemma_offered_files(entries, f);
        if input.contains(f) {
            let k = choose|k: int|
                0 <= k < entries.len() && offered(#[trigger] entries[k]) && f == (
                    entries[k].name@,
                    entries[k].meta->0.len,
                );
            assert(bare_name(entries[k].name@));
        }
    }
}

proof fn lemma_offered_files(entries: Seq<DirEntry>, f: (Seq<char>, u64))
    ensures
        offered_files(entries).contains(f) <==> exists|k: int|
            0 <= k < entries.len() && offered(#[trigger] entries[k]) && f == (
                entries[k].name@,
                entries[k].meta->0.len,
            ),
    decreases entries.len(),
{
    if entries.len() > 0 {
        let before = entries.drop_last();
        let e = entries.last();
        let files = offered_files(before);
        let here = (e.name@, e.meta->0.len);
        lemma_offered_files(before, f);
        if offered_files(entries).contains(f) {
            let i = choose|i: int| 0 <= i < offered_files(entries).len() && offered_files(entries)[i] == f;
            if i < files.len() {
                assert(files[i] == f);
                let k = choose|k: int|
                    0 <= k < before.len() && offered(#[trigger] before[k]) && f == (
                        before[k].name@,
                        before[k].meta->0.len,
                    );
                assert(entries[k] == before[k]);
            } else {
                assert(offered(entries[entries.len() - 1]));
            }
        }
        if exists|k: int|
            0 <= k < entries.len() && offered(#[trigger] entries[k]) && f == (
                entries[k].name@,
                entries[k].meta->0.len,
            ) {
            let k = choose|k: int|
                0 <= k < entries.len() && offered(#[trigger] entries[k]) && f == (
                    entries[k].name@,
                    entries[k].meta->0.len,
                );
            if k < before.len() {
                assert(before[k] == entries[k]);
                let i = choose|i: int| 0 <= i < files.len() && files[i] == f;
                assert(offered_files(entries)[i] == f);
            } else {
                assert(offered_files(entries)[files.len() as int] == f);
            }
        }
    }
}

/// The places of the offered entries in the directory.
spec fn offered_places(entries: Seq<DirEntry>) -> Seq<int>
    decreases entries.len(),
{
    if entries.len() == 0 {
        seq![]
    } else {
        let before = offered_places(entries.drop_last());
        if offered(entries.last()) {
            before.push(entries.len() - 1)
        } else {
            before
        }
    }
}

proof fn lemma_offered_places(entries: Seq<DirEntry>)
    ensures
        ({
            let place = offered_places(entries);
            let files = offered_files(entries);
            &&& place.len() == files.len()
            &&& forall|m: int|
                0 <= m < place.len() ==> belongs(entries, #[trigger] place[m]) && files[m] == (
                    entries[place[m]].name@,
                    entries[place[m]].meta->0.len,
                )
            &&& forall|m: int, n: int| 0 <= m < n < place.len() ==> place[m] < place[n]
            &&& forall|k: int| #[trigger] belongs(entries, k) ==> place.contains(k)
        }),
    decreases entries.len(),
{
    if entries.len() > 0 {
        let before = entries.drop_last();
        lemma_offered_places(before);
        let place = offered_places(entries);
        let files = offered_files(entries);
        let old_place = offered_places(before);
        assert forall|m: int| 0 <= m < place.len() implies belongs(entries, #[trigger] place[m])
            && files[m] == (entries[place[m]].name@, entries[place[m]].meta->0.len) by {
            if m < old_place.len() {
                assert(place[m] == old_place[m]);
                assert(belongs(before, old_place[m]));
            }
        }
        assert forall|m: int, n: int| 0 <= m < n < place.len() implies place[m] < place[n] by {
            assert(belongs(before, old_place[m]));
        }
        assert forall|k: int| #[trigger] belongs(entries, k) implies place.contains(k) by {
            if k < before.len() {
                assert(belongs(before, k));
                let m = choose|m: int| 0 <= m < old_place.len() && old_place[m] == k;
                assert(place[m] == k);
            } else {
                assert(place[place.len() - 1] == k);
            }
        }
    }
}

/// What a list of files stands for is each file's name and size, in its order.
pub proof fn law_listing_of_files(files: Seq<FileEntry>)
    ensures
        listing(files).len() == files.len(),
        forall|i: int|
            0 <= i < files.len() ==> (#[trigger] listing(files)[i]).0 == files[i].name@
                && listing(files)[i].1 == files[i].size,
{
}

/// One directory has one listing.
pub proof fn law_one_directory_has_one_listing(
    a: Seq<(Seq<char>, u64)>,
    b: Seq<(Seq<char>, u64)>,
    input: Seq<(Seq<char>, u64)>,
)
    requires
        stably_sorted(a, input),
        stably_sorted(b, input),
    ensures
        a == b,
{
    let p = choose|order: Seq<int>| sorted_through(order, a, input);
    let q = choose|order: Seq<int>| sorted_through(order, b, input);
    lemma_orders_agree(p, q, a, b, input, input.len() as int);
    assert forall|i: int| 0 <= i < a.len() implies a[i] == b[i] by {
        assert(p[i] == q[i]);
    }
    assert(a =~= b);
}

proof fn lemma_orders_agree(
    p: Seq<int>,
    q: Seq<int>,
    a: Seq<(Seq<char>, u64)>,
    b: Seq<(Seq<char>, u64)>,
    input: Seq<(Seq<char>, u64)>,
    n: int,
)
    requires
        sorted_through(p, a, input),
        sorted_through(q, b, input),
        0 <= n <= input.len(),
    ensures
        forall|i: int| 0 <= i < n ==> p[i] == q[i],
    decreases n,
{
    if n > 0 {
        let i = n - 1;
        lemma_orders_agree(p, q, a, b, input, i);
        if p[i] != q[i] {
            lemma_order_is_onto(q, b, input, p[i]);
            lemma_order_is_onto(p, a, input, q[i]);
            let j = choose|j: int| 0 <= j < q.len() && q[j] == p[i];
            let k = choose|k: int| 0 <= k < p.len() && p[k] == q[i];
            assert(j > i) by {
                if j < i {
                    assert(p[j] == q[j]);
                    assert(p[j] != p[i]);
                }
            }
            assert(k > i) by {
                if k < i {
                    assert(q[k] == p[k]);
                    assert(q[k] != q[i]);
                }
            }
            assert(q[i] != q[j]);
            assert(p[i] != p[k]);
            lemma_name_order(input[p[i]].0, input[q[i]].0, input[p[i]].0);
        }
    }
}

/// The names tried, in this order, for the operator's own intermission music.
pub open spec fn music_name(i: int) -> Seq<char> {
    "intermission."@ + (if i == 0 {
        "mp3"@
    } else if i == 1 {
        "m4a"@
    } else if i == 2 {
        "aac"@
    } else if i == 3 {
        "ogg"@
    } else if i == 4 {
        "opus"@
    } else if i == 5 {
        "wav"@
    } else {
        "flac"@
    })
}

/// How many names are tried.
pub const MUSIC_NAMES: usize = 7;

/// One of the names tried for the intermission music.
pub fn music_file_name(i: usize) -> (r: String)
    requires
        i < MUSIC_NAMES,
    ensures
        r@ == music_name(i as int),
{
    let mut r = "intermission.".to_owned();
    if i == 0 {
        r.append("mp3");
    } else if i == 1 {
        r.append("m4a");
    } else if i == 2 {
        r.append("aac");
    } else if i == 3 {
        r.append("ogg");
    } else if i == 4 {
        r.append("opus");
    } else if i == 5 {
        r.append("wav");
    } else {
        r.append("flac");
    }
    r
}

/// The next step in the search for the intermission music.
pub enum AudioStep {
    /// See whether the media directory holds a regular file of this name.
    Probe { name: String },
    /// Play this file of the media directory.
    Use { name: String },
    /// Play the built-in music, kept under this name beside the state file.
    BuiltIn { name: String },
}

/// The step after `tried` names have been probed, `found` telling whether the
/// last of them is a regular file.
pub open spec fn audio_step(tried: int, found: bool, step: AudioStep) -> bool {
    match step {
        AudioStep::Use { name } => found && 0 < tried <= MUSIC_NAMES && name@ == music_name(
            tried - 1,
        ),
        AudioStep::Probe { name } => !(found && tried > 0) && tried < MUSIC_NAMES && name@
            == music_name(tried),
        AudioStep::BuiltIn { name } => (tried > MUSIC_NAMES || (tried == MUSIC_NAMES && !found))
            && name@ == "intermission-default.m4a"@,
    }
}

/// The music: `intermission.*` in the media directory if the operator put one
/// there, else the built-in pad beside the state file.
pub fn intermission_audio_path(tried: usize, found: bool) -> (r: AudioStep)
    ensures
        audio_step(tried as int, found, r),
{
    if found && tried > 0 && tried <= MUSIC_NAMES {
        AudioStep::Use { name: music_file_name(tried - 1) }
    } else if tried < MUSIC_NAMES {
        AudioStep::Probe { name: music_file_name(tried) }
    } else {
        AudioStep::BuiltIn { name: "intermission-default.m4a".to_owned() }
    }
}

/// Whether the built-in music has to be written: unless the file holds it already.
pub fn built_in_is_stale(on_disk: Option<&[u8]>, built_in: &[u8]) -> (r: bool)
    ensures
        r == !(on_disk is Some && on_disk->0@ == built_in@),
{
    match on_disk {
        None => true,
        Some(bytes) => !ct_eq(bytes, built_in),
    }
}

/// The names tried for the operator's own music, in order.
pub proof fn law_music_names()
    ensures
        music_name(0) == "intermission.mp3"@,
        music_name(1) == "intermission.m4a"@,
        music_name(2) == "intermission.aac"@,
        music_name(3) == "intermission.ogg"@,
        music_name(4) == "intermission.opus"@,
        music_name(5) == "intermission.wav"@,
        music_name(6) == "intermission.flac"@,
{
    reveal_strlit("intermission.");
    reveal_strlit("mp3");
    reveal_strlit("m4a");
    reveal_strlit("aac");
    reveal_strlit("ogg");
    reveal_strlit("opus");
    reveal_strlit("wav");
    reveal_strlit("flac");
    reveal_strlit("intermission.mp3");
    reveal_strlit("intermission.m4a");
    reveal_strlit("intermission.aac");
    reveal_strlit("intermission.ogg");
    reveal_strlit("intermission.opus");
    reveal_strlit("intermission.wav");
    reveal_strlit("intermission.flac");
    assert(music_name(0) =~= "intermission.mp3"@);
    assert(music_name(1) =~= "intermission.m4a"@);
    assert(music_name(2) =~= "intermission.aac"@);
    assert(music_name(3) =~= "intermission.ogg"@);
    assert(music_name(4) =~= "intermission.opus"@);
    assert(music_name(5) =~= "intermission.wav"@);
    assert(music_name(6) =~= "intermission.flac"@);
}

/// The operator's own music wins: of the seven names tried in order, the first
/// that is a regular file of the media directory is played, and the built-in
/// music, under its own name, only where none is. A search that found nothing
/// so far goes on with the next name.
pub proof fn law_first_music_file_is_played(is_file: Seq<bool>, steps: Seq<AudioStep>)
    requires
        is_file.len() == 7,
        0 < steps.len(),
        forall|i: int|
            0 <= i < steps.len() ==> audio_step(i, i > 0 && is_file[i - 1], #[trigger] steps[i]),
        forall|i: int| 0 <= i < steps.len() - 1 ==> #[trigger] steps[i] is Probe,
    ensures
        match steps.last() {
            AudioStep::Probe { name } => steps.len() <= 7 && name@ == music_name(steps.len() - 1)
                && forall|k: int| 0 <= k < steps.len() - 1 ==> !is_file[k],
            AudioStep::Use { name } => exists|m: int|
                0 <= m < 7 && #[trigger] is_file[m] && (forall|k: int| 0 <= k < m ==> !is_file[k])
                    && name@ == music_name(m),
            AudioStep::BuiltIn { name } => name@ == "intermission-default.m4a"@ && forall|k: int|
                0 <= k < 7 ==> !is_file[k],
        },
        steps.len() <= 8,
{
    let n = steps.len() - 1;
    assert(audio_step(n, n > 0 && is_file[n - 1], steps[n]));
    if n > 0 {
        assert(steps[n - 1] is Probe);
        assert(audio_step(n - 1, n - 1 > 0 && is_file[n - 2], steps[n - 1]));
    }
    assert forall|k: int| 0 <= k < n - 1 implies !is_file[k] by {
        assert(steps[k + 1] is Probe);
        assert(audio_step(k + 1, is_file[k], steps[k + 1]));
    }
    assert(steps[n] is Use ==> is_file[n - 1]);
}

/// Every point of the search has one step: a file found is played, a search
/// with names left probes the next, one without ends with the built-in music.
pub proof fn law_every_point_has_one_step(tried: int, found: bool, step: AudioStep)
    requires
        tried >= 0,
        audio_step(tried, found, step),
    ensures
        step is Use <==> found && 1 <= tried <= 7,
        step is Probe <==> tried < 7 && (!found || tried == 0),
        step is BuiltIn <==> tried > 7 || (tried == 7 && !found),
{
}

/// The content type the intermission music must be served with, where the one
/// its name suggests will not do: AAC in an MP4 container is `audio/mp4`,
/// which Safari, unlike `audio/m4a`, recognises.
pub fn intermission_service(path: &str) -> (r: Option<String>)
    ensures
        r is Some <==> (extension_of(path@) == Some("m4a"@) || extension_of(path@) == Some(
            "aac"@,
        )),
        r matches Some(mime) ==> mime@ == "audio/mp4"@,
{
    match extension(path) {
        Some(e) => if is_text(e.as_slice(), "m4a") || is_text(e.as_slice(), "aac") {
            Some("audio/mp4".to_owned())
        } else {
            None
        },
        None => None,
    }
}

} // verus!
