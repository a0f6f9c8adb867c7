//! The dashboard's static file host: request routing, content types, response
//! headers and the printable host name. The sockets and files themselves are
//! handled by the caller.
use vstd::prelude::*;
use crate::text::{
    chars_of, copy_range, decimal, decimal_is_numeral, decimal_string, is_numeral_of, find_char, range_has_dot_dot, has_dot_dot,
    lemma_find_char_bounds, lemma_skip_char_bounds, scan_char, second_word, second_word_bounds,
    skip_char, str_eq, is_whitespace, lemma_skip_word_run, lemma_skip_space_run,
    lemma_find_char_run, lemma_skip_char_run,
};

verus! {

/// How a request is answered.
#[derive(Debug, PartialEq, Eq)]
pub enum Route {
    /// `200 OK`, `application/json`: the robot description.
    Config,
    /// `200 OK` with the file at this path under the web root (or `404` if it cannot be read).
    File(String),
    /// `404 Not Found`, `text/plain`, body `not found`.
    NotFound,
}

/// The request target: the second word of the request line, `/` if there is none.
pub open spec fn request_target(line: Seq<char>) -> Seq<char> {
    match second_word(line) {
        Some(w) => w,
        None => seq!['/'],
    }
}

/// `p` up to its first `?`.
pub open spec fn strip_query(p: Seq<char>) -> Seq<char> {
    p.subrange(0, find_char(p, '?', 0))
}

/// `p` without its leading `/` characters.
pub open spec fn trim_leading_slashes(p: Seq<char>) -> Seq<char> {
    p.subrange(skip_char(p, '/', 0), p.len() as int)
}

pub open spec fn index_html() -> Seq<char> {
    seq!['i', 'n', 'd', 'e', 'x', '.', 'h', 't', 'm', 'l']
}

pub open spec fn config_json_name() -> Seq<char> {
    seq!['c', 'o', 'n', 'f', 'i', 'g', '.', 'j', 's', 'o', 'n']
}

/// The path, relative to the web root, that a request line asks for:
/// the query is dropped, leading slashes are dropped, and nothing left means `index.html`.
pub open spec fn relative_target(line: Seq<char>) -> Seq<char> {
    let r = trim_leading_slashes(strip_query(request_target(line)));
    if r.len() == 0 {
        index_html()
    } else {
        r
    }
}

/// The answer to a request whose first line is `line`.
pub open spec fn route_of(line: Seq<char>, r: Route) -> bool {
    let rel = relative_target(line);
    if rel == config_json_name() {
        r == Route::Config
    } else if has_dot_dot(rel) {
        r == Route::NotFound
    } else {
        r matches Route::File(f) && f@ == rel
    }
}

/// Decides how to answer a request from its first line (`GET /path?query HTTP/1.1`).
pub fn route(request_line: &str) -> (r: Route)
    ensures
        route_of(request_line@, r),
{
    let v = chars_of(request_line);
    let (from, to) = match second_word_bounds(&v) {
        Some((a, b)) => (a, b),
        None => (0, 0),
    };
    let ghost target = request_target(request_line@);
    // `w` holds the request target; with no second word it stands for `/`.
    let w = if to > from {
        copy_range(&v, from, to)
    } else {
        let mut w: Vec<char> = Vec::new();
        w.push('/');
        w
    };
    assert(w@ =~= target);
    let q = scan_char(&w, '?', 0, true);
    let st = scan_char(&w, '/', 0, false);
    proof {
        lemma_find_char_bounds(w@, '?', 0);
        lemma_skip_char_bounds(w@, '/', 0);
        // Skipping slashes in the query-less prefix stops where it does in the whole target.
        lemma_skip_prefix(w@, q as int);
    }
    let st = if st < q { st } else { q };
    assert(trim_leading_slashes(strip_query(w@)) =~= w@.subrange(st as int, q as int));
    if st == q {
        let rel = String::from_str("index.html");
        proof {
            reveal_strlit("index.html");
            assert(rel@ =~= index_html());
        }
        return Route::File(rel);
    }
    // The target is a non-empty word of the line, so its characters are at from + k.
    let rel_str = request_line.substring_char(from + st, from + q);
    assert(rel_str@ =~= w@.subrange(st as int, q as int));
    if str_eq(rel_str, "config.json") {
        proof {
            reveal_strlit("config.json");
            assert("config.json"@ =~= config_json_name());
        }
        return Route::Config;
    }
    proof {
        reveal_strlit("config.json");
        assert("config.json"@ =~= config_json_name());
    }
    if range_has_dot_dot(&w, st, q) {
        return Route::NotFound;
    }
    Route::File(String::from_str(rel_str))
}

proof fn lemma_skip_prefix(s: Seq<char>, q: int)
    requires
        0 <= q <= s.len(),
    ensures
        skip_char(s.subrange(0, q), '/', 0) == if skip_char(s, '/', 0) < q {
            skip_char(s, '/', 0)
        } else {
            q
        },
{
    lemma_skip_prefix_from(s, q, 0);
}

proof fn lemma_skip_prefix_from(s: Seq<char>, q: int, i: int)
    requires
        0 <= i <= q <= s.len(),
    ensures
        skip_char(s.subrange(0, q), '/', i) == if skip_char(s, '/', i) < q {
            skip_char(s, '/', i)
        } else {
            q
        },
    decreases q - i,
{
    lemma_skip_char_bounds(s, '/', i);
    if i < q && s[i] == '/' {
        lemma_skip_prefix_from(s, q, i + 1);
    }
}

} // verus!

verus! {

/// Start of the path component that ends at `end`: one past the last `/` before `end`, or 0.
pub open spec fn component_start(s: Seq<char>, end: int) -> int
    decreases end,
{
    if end <= 0 {
        0
    } else if s[end - 1] == '/' {
        end
    } else {
        component_start(s, end - 1)
    }
}

/// The final component of the path `s[..end]`, as `Path::file_name` gives it:
/// empty and `.` components are skipped, and a final `..` has no file name.
pub open spec fn file_name_before(s: Seq<char>, end: int) -> Option<Seq<char>>
    decreases end,
{
    if end <= 0 {
        None
    } else {
        let st = component_start(s, end);
        let comp = s.subrange(st, end);
        if comp.len() == 0 || comp == seq!['.'] {
            if st == 0 {
                None
            } else {
                proof {
                    lemma_component_start_le(s, end);
                }
                file_name_before(s, st - 1)
            }
        } else if comp == seq!['.', '.'] {
            None
        } else {
            Some(comp)
        }
    }
}

pub open spec fn file_name(path: Seq<char>) -> Option<Seq<char>> {
    file_name_before(path, path.len() as int)
}

/// Index of the last `.` before `end`, or -1.
pub open spec fn last_dot(s: Seq<char>, end: int) -> int
    decreases end,
{
    if end <= 0 {
        -1
    } else if s[end - 1] == '.' {
        end - 1
    } else {
        last_dot(s, end - 1)
    }
}

/// The extension of a file name, as `Path::extension` gives it: the text after the
/// last `.`, unless there is no `.` or the only one starts the name.
pub open spec fn extension_of(name: Seq<char>) -> Option<Seq<char>> {
    let k = last_dot(name, name.len() as int);
    if k <= 0 {
        None
    } else {
        Some(name.subrange(k + 1, name.len() as int))
    }
}

/// The `Content-Type` for a file with extension `ext`.
pub open spec fn content_type_for(ext: Option<Seq<char>>) -> &'static str {
    match ext {
        Some(e) => if e == "html"@ {
            "text/html; charset=utf-8"
        } else if e == "js"@ {
            "text/javascript; charset=utf-8"
        } else if e == "css"@ {
            "text/css; charset=utf-8"
        } else if e == "json"@ {
            "application/json"
        } else if e == "svg"@ {
            "image/svg+xml"
        } else if e == "png"@ {
            "image/png"
        } else if e == "ico"@ {
            "image/x-icon"
        } else {
            "application/octet-stream"
        },
        None => "application/octet-stream",
    }
}

pub proof fn lemma_component_start_le(s: Seq<char>, end: int)
    ensures
        end >= 0 ==> 0 <= component_start(s, end) <= end,
    decreases end,
{
    if end > 0 && s[end - 1] != '/' {
        lemma_component_start_le(s, end - 1);
    }
}

proof fn lemma_component_start(s: Seq<char>, end: int)
    requires
        0 <= end <= s.len(),
    ensures
        0 <= component_start(s, end) <= end,
        component_start(s, end) > 0 ==> s[component_start(s, end) - 1] == '/',
        forall|k: int| component_start(s, end) <= k < end ==> #[trigger] s[k] != '/',
    decreases end,
{
    if end > 0 && s[end - 1] != '/' {
        lemma_component_start(s, end - 1);
    }
}

proof fn lemma_last_dot(s: Seq<char>, end: int)
    requires
        0 <= end <= s.len(),
    ensures
        -1 <= last_dot(s, end) < end,
        last_dot(s, end) >= 0 ==> s[last_dot(s, end)] == '.',
        forall|k: int| last_dot(s, end) < k < end ==> #[trigger] s[k] != '.',
    decreases end,
{
    if end > 0 && s[end - 1] != '.' {
        lemma_last_dot(s, end - 1);
    }
}

/// Bounds of the file name of `s` (see `file_name`).
fn file_name_bounds(s: &Vec<char>) -> (r: Option<(usize, usize)>)
    ensures
        match r {
            None => file_name(s@) is None,
            Some((a, b)) => a <= b <= s@.len() && file_name(s@) == Some(s@.subrange(a as int, b as int)),
        },
{
    let mut end = s.len();
    loop
        invariant
            end <= s@.len(),
            file_name(s@) == file_name_before(s@, end as int),
        decreases end,
    {
        if end == 0 {
            return None;
        }
        let mut st = end;
        while st > 0 && s[st - 1] != '/'
            invariant
                st <= end <= s@.len(),
                component_start(s@, end as int) == component_start(s@, st as int),
            decreases st,
        {
            st = st - 1;
        }
        proof {
            lemma_component_start(s@, end as int);
        }
        let ghost comp = s@.subrange(st as int, end as int);
        let len = end - st;
        if len == 0 || (len == 1 && s[st] == '.') {
            assert(comp.len() == 0 || comp =~= seq!['.']);
            if st == 0 {
                return None;
            }
            end = st - 1;
        } else if len == 2 && s[st] == '.' && s[st + 1] == '.' {
            assert(comp =~= seq!['.', '.']);
            return None;
        } else {
            let ghost one = seq!['.'];
            let ghost two = seq!['.', '.'];
            assert(one.len() == 1 && one[0] == '.');
            assert(two.len() == 2 && two[0] == '.' && two[1] == '.');
            assert(comp.len() == len);
            assert(comp.len() >= 1 ==> comp[0] == s@[st as int]);
            assert(comp.len() >= 2 ==> comp[1] == s@[st + 1]);
            assert(comp != one);
            assert(comp != two);
            return Some((st, end));
        }
    }
}

/// The `Content-Type` of a file served from `path`, by the path's extension
/// (`application/octet-stream` for anything unknown).
pub fn content_type(path: &str) -> (r: &'static str)
    ensures
        r == content_type_for(
            match file_name(path@) {
                Some(name) => extension_of(name),
                None => None,
            },
        ),
{
    let v = chars_of(path);
    let (a, b) = match file_name_bounds(&v) {
        None => return "application/octet-stream",
        Some(ab) => ab,
    };
    let ghost name = v@.subrange(a as int, b as int);
    let mut k = b;
    while k > a && v[k - 1] != '.'
        invariant
            a <= k <= b <= v@.len(),
            name == v@.subrange(a as int, b as int),
            last_dot(name, name.len() as int) == last_dot(name, k - a),
        decreases k,
    {
        k = k - 1;
    }
    proof {
        lemma_last_dot(name, (k - a) as int);
    }
    // `k - 1` is the last dot; it must not be the first character of the name.
    if k - a <= 1 {
        return "application/octet-stream";
    }
    let ext = path.substring_char(k, b);
    assert(ext@ =~= name.subrange(k - a, name.len() as int));
    if str_eq(ext, "html") {
        "text/html; charset=utf-8"
    } else if str_eq(ext, "js") {
        "text/javascript; charset=utf-8"
    } else if str_eq(ext, "css") {
        "text/css; charset=utf-8"
    } else if str_eq(ext, "json") {
        "application/json"
    } else if str_eq(ext, "svg") {
        "image/svg+xml"
    } else if str_eq(ext, "png") {
        "image/png"
    } else if str_eq(ext, "ico") {
        "image/x-icon"
    } else {
        "application/octet-stream"
    }
}

} // verus!

verus! {

/// The HTTP/1.1 response head sent before a body of `body_len` bytes.
pub open spec fn response_head(status: Seq<char>, content_type: Seq<char>, body_len: nat) -> Seq<
    char,
> {
    "HTTP/1.1 "@ + status + "\r\nContent-Type: "@ + content_type + "\r\nContent-Length: "@
        + decimal(body_len) + "\r\nConnection: close\r\n\r\n"@
}

/// Renders the response head: status line, `Content-Type`, `Content-Length`,
/// `Connection: close` and the blank line that ends the head.
pub fn response_header(status: &str, content_type: &str, body_len: usize) -> (r: String)
    ensures
        r@ == response_head(status@, content_type@, body_len as nat),
        exists|len: Seq<char>|
            #![trigger is_numeral_of(len, body_len as nat)]
            is_numeral_of(len, body_len as nat) && r@ == "HTTP/1.1 "@ + status@
                + "\r\nContent-Type: "@ + content_type@ + "\r\nContent-Length: "@ + len
                + "\r\nConnection: close\r\n\r\n"@,
{
    proof {
        decimal_is_numeral(body_len as nat);
    }
    let mut h = String::from_str("HTTP/1.1 ");
    h.append(status);
    h.append("\r\nContent-Type: ");
    h.append(content_type);
    h.append("\r\nContent-Length: ");
    let n = decimal_string(body_len as u64);
    h.append(n.as_str());
    h.append("\r\nConnection: close\r\n\r\n");
    h
}

/// `bind:port`, the socket address a server listens on.
pub open spec fn socket_address(bind: Seq<char>, port: u16) -> Seq<char> {
    bind + ":"@ + decimal(port as nat)
}

/// Renders the address `bind:port` to listen on.
pub fn bind_address(bind: &str, port: u16) -> (r: String)
    ensures
        r@ == socket_address(bind@, port),
        exists|p: Seq<char>|
            #![trigger is_numeral_of(p, port as nat)]
            is_numeral_of(p, port as nat) && r@ == bind@ + ":"@ + p,
{
    proof {
        decimal_is_numeral(port as nat);
    }
    let mut a = String::from_str(bind);
    a.append(":");
    let p = decimal_string(port as u64);
    a.append(p.as_str());
    a
}

/// Whether `bind` is a wildcard address, which is not reachable as such.
pub open spec fn wildcard_bind(bind: Seq<char>) -> bool {
    bind == "0.0.0.0"@ || bind == "::"@
}

/// Decides `wildcard_bind`.
pub fn is_wildcard_bind(bind: &str) -> (r: bool)
    ensures
        r == wildcard_bind(bind@),
        r == (bind@ == "0.0.0.0"@ || bind@ == "::"@),
{
    str_eq(bind, "0.0.0.0") || str_eq(bind, "::")
}

/// The host to print in links: a wildcard bind address is replaced by the
/// detected LAN address of the machine, or `localhost` when none was found;
/// any other bind address is shown as it is. `detected_ip` is only consulted
/// for a wildcard address.
pub fn display_host(bind: &str, detected_ip: Option<String>) -> (r: String)
    ensures
        wildcard_bind(bind@) ==> r@ == match detected_ip {
            Some(ip) => ip@,
            None => "localhost"@,
        },
        !wildcard_bind(bind@) ==> r@ == bind@,
        bind@ != "0.0.0.0"@ && bind@ != "::"@ ==> r@ == bind@,
        bind@ == "0.0.0.0"@ || bind@ == "::"@ ==> r@ == match detected_ip {
            Some(ip) => ip@,
            None => "localhost"@,
        },
{
    if is_wildcard_bind(bind) {
        match detected_ip {
            Some(ip) => ip,
            None => String::from_str("localhost"),
        }
    } else {
        String::from_str(bind)
    }
}

} // verus!

verus! {

/// The host never answers with a file whose relative path holds `..`: every
/// file it serves lies under the web root.
pub proof fn route_stays_under_root(line: Seq<char>, r: Route)
    requires
        route_of(line, r),
    ensures
        r matches Route::File(f) ==> !has_dot_dot(f@),
{
}

/// A request for `/` (or for nothing but slashes and a query) is answered
/// with `index.html`.
pub proof fn root_serves_index(line: Seq<char>, r: Route)
    requires
        route_of(line, r),
        trim_leading_slashes(strip_query(request_target(line))).len() == 0,
    ensures
        r matches Route::File(f) && f@ == index_html(),
{
    let s = index_html();
    assert(s != config_json_name()) by {
        assert(s.len() != config_json_name().len());
    }
    assert(!has_dot_dot(s)) by {
        assert forall|i: int| 0 <= i && i + 1 < s.len() && s[i] == '.' implies #[trigger] s[i + 1] != '.' by {
            assert(i == 5);
        }
    }
}

} // verus!

verus! {

/// Only the unspecified addresses `0.0.0.0` and `::` count as wildcard binds;
/// every other bind address is shown as it is.
pub proof fn wildcard_is_unspecified_address(bind: Seq<char>)
    ensures
        wildcard_bind(bind) <==> (bind == "0.0.0.0"@ || bind == "::"@),
{
}

} // verus!

verus! {

proof fn lemma_component_start_run(s: Seq<char>, a: int, end: int)
    requires
        0 <= a <= end <= s.len(),
        forall|k: int| a <= k < end ==> #[trigger] s[k] != '/',
        a == 0 || s[a - 1] == '/',
    ensures
        component_start(s, end) == a,
    decreases end,
{
    if end > a {
        lemma_component_start_run(s, a, end - 1);
    }
}

proof fn lemma_last_dot_run(s: Seq<char>, k: int, end: int)
    requires
        0 <= k < end <= s.len(),
        s[k] == '.',
        forall|m: int| k < m < end ==> #[trigger] s[m] != '.',
    ensures
        last_dot(s, end) == k,
    decreases end,
{
    if end > k + 1 {
        lemma_last_dot_run(s, k, end - 1);
    }
}

/// The file name of a path is its last component: for a directory part that is
/// empty or ends in `/`, followed by a name without `/` that is neither `.` nor `..`.
pub proof fn file_name_is_last_component(dir: Seq<char>, name: Seq<char>)
    requires
        dir.len() == 0 || dir.last() == '/',
        name.len() > 0,
        !name.contains('/'),
        name != seq!['.'],
        name != seq!['.', '.'],
    ensures
        file_name(dir + name) == Some(name),
{
    let p = dir + name;
    assert forall|k: int| dir.len() <= k < p.len() implies #[trigger] p[k] != '/' by {
        assert(p[k] == name[k - dir.len()]);
        if p[k] == '/' {
            assert(name.contains('/'));
        }
    }
    lemma_component_start_run(p, dir.len() as int, p.len() as int);
    assert(p.subrange(dir.len() as int, p.len() as int) =~= name);
}

/// The extension is the text after the last dot of the name: a name made of a
/// non-empty stem (which may hold dots itself), a dot, and a dot-free `ext`
/// has extension `ext`.
pub proof fn extension_after_last_dot(stem: Seq<char>, ext: Seq<char>)
    requires
        stem.len() > 0,
        !ext.contains('.'),
    ensures
        extension_of(stem + seq!['.'] + ext) == Some(ext),
{
    let n = stem + seq!['.'] + ext;
    let k = stem.len() as int;
    assert(n[k] == '.');
    assert forall|m: int| k < m < n.len() implies #[trigger] n[m] != '.' by {
        assert(n[m] == ext[m - k - 1]);
        if n[m] == '.' {
            assert(ext.contains('.'));
        }
    }
    lemma_last_dot_run(n, k, n.len() as int);
    assert(n.subrange(k + 1, n.len() as int) =~= ext);
}

/// A name whose only dot is its first character (or that has no dot) has no extension.
pub proof fn no_extension_without_inner_dot(name: Seq<char>)
    requires
        forall|m: int| 0 < m < name.len() ==> #[trigger] name[m] != '.',
    ensures
        extension_of(name) is None,
{
    if name.len() > 0 {
        lemma_last_dot(name, name.len() as int);
    }
}

/// The content type of a file at `dir` + `stem` + `.` + `ext` is decided by
/// `ext` alone, the text after the last dot of the file name.
pub proof fn content_type_by_extension(dir: Seq<char>, stem: Seq<char>, ext: Seq<char>)
    requires
        dir.len() == 0 || dir.last() == '/',
        stem.len() > 0,
        !stem.contains('/'),
        !ext.contains('/'),
        !ext.contains('.'),
        !(stem == seq!['.'] && ext.len() == 0),
    ensures
        content_type_for(
            match file_name(dir + stem + seq!['.'] + ext) {
                Some(name) => extension_of(name),
                None => None,
            },
        ) == (if ext == "html"@ {
            "text/html; charset=utf-8"
        } else if ext == "js"@ {
            "text/javascript; charset=utf-8"
        } else if ext == "css"@ {
            "text/css; charset=utf-8"
        } else if ext == "json"@ {
            "application/json"
        } else if ext == "svg"@ {
            "image/svg+xml"
        } else if ext == "png"@ {
            "image/png"
        } else if ext == "ico"@ {
            "image/x-icon"
        } else {
            "application/octet-stream"
        }),
{
    let name = stem + seq!['.'] + ext;
    assert(!name.contains('/')) by {
        if name.contains('/') {
            let i = choose|i: int| 0 <= i < name.len() && name[i] == '/';
            if i < stem.len() {
                assert(stem[i] == '/');
            } else if i > stem.len() {
                assert(ext[i - stem.len() - 1] == '/');
            }
        }
    }
    assert(name != seq!['.']) by {
        assert(name.len() >= 2);
    }
    assert(name != seq!['.', '.']) by {
        if name == seq!['.', '.'] {
            assert(stem.len() == 1 && ext.len() == 0);
            assert(stem[0] == name[0]);
            assert(stem =~= seq!['.']);
        }
    }
    assert(dir + stem + seq!['.'] + ext =~= dir + name);
    file_name_is_last_component(dir, name);
    extension_after_last_dot(stem, ext);
}

} // verus!

verus! {

/// A printable ASCII character other than space.
pub open spec fn visible(c: char) -> bool {
    '!' <= c <= '~'
}

/// Routing a request line `method /path[?query] rest` (the path may follow
/// several slashes), for a method and a target of printable characters: the
/// path names `config.json` exactly → the robot description; the path holds
/// `..` → not found; an empty path → `index.html`; any other path → that file,
/// whatever dots it holds. The query never matters.
pub proof fn route_by_target(
    method: Seq<char>,
    slashes: Seq<char>,
    path: Seq<char>,
    query: Seq<char>,
    rest: Seq<char>,
    r: Route,
)
    requires
        method.len() > 0,
        forall|i: int| 0 <= i < method.len() ==> visible(#[trigger] method[i]),
        slashes.len() > 0,
        forall|i: int| 0 <= i < slashes.len() ==> #[trigger] slashes[i] == '/',
        forall|i: int| 0 <= i < path.len() ==> visible(#[trigger] path[i]) && path[i] != '?',
        path.len() == 0 || path[0] != '/',
        query.len() == 0 || query[0] == '?',
        forall|i: int| 0 <= i < query.len() ==> visible(#[trigger] query[i]),
        route_of(method + seq![' '] + slashes + path + query + seq![' '] + rest, r),
    ensures
        path == "config.json"@ ==> r == Route::Config,
        (exists|i: int| 0 <= i && i + 1 < path.len() && path[i] == '.' && #[trigger] path[i + 1] == '.')
            ==> r == Route::NotFound,
        path.len() > 0 && path != "config.json"@ && (forall|i: int|
            0 <= i && i + 1 < path.len() ==> !(path[i] == '.' && #[trigger] path[i + 1] == '.'))
            ==> (r matches Route::File(f) && f@ == path),
        path.len() == 0 ==> (r matches Route::File(f) && f@ == "index.html"@),
{
    reveal_strlit("config.json");
    reveal_strlit("index.html");
    assert("config.json"@ =~= config_json_name());
    assert("index.html"@ =~= index_html());
    let line = method + seq![' '] + slashes + path + query + seq![' '] + rest;
    let m = method.len() as int;
    let target = slashes + path + query;
    let d = m + 1 + target.len();
    let ns = slashes.len() as int;
    assert(line[m] == ' ');
    assert(line[d] == ' ');
    assert forall|k: int| 0 <= k < m implies !is_whitespace(#[trigger] line[k]) by {
        assert(line[k] == method[k]);
        assert(visible(method[k]));
    }
    assert forall|k: int| m + 1 <= k < d implies !is_whitespace(#[trigger] line[k]) by {
        let t = k - m - 1;
        assert(line[k] == target[t]);
        if t < ns {
            assert(target[t] == slashes[t]);
        } else if t < ns + path.len() {
            assert(target[t] == path[t - ns]);
            assert(visible(path[t - ns]));
        } else {
            assert(target[t] == query[t - ns - path.len()]);
            assert(visible(query[t - ns - path.len()]));
        }
    }
    assert(!is_whitespace(line[0])) by {
        assert(line[0] == method[0]);
    }
    lemma_skip_space_run(line, 0, 0);
    lemma_skip_word_run(line, 0, m);
    assert(!is_whitespace(line[m + 1])) by {
        assert(line[m + 1] == slashes[0]);
    }
    lemma_skip_space_run(line, m, m + 1);
    lemma_skip_word_run(line, m + 1, d);
    assert(line.subrange(m + 1, d) =~= target);
    assert(request_target(line) == target);
    // The query starts right after the path.
    let qi: int = ns + path.len() as int;
    assert forall|k: int| 0 <= k < qi implies #[trigger] target[k] != '?' by {
        if k < ns {
            assert(target[k] == slashes[k]);
        } else {
            assert(target[k] == path[k - ns]);
        }
    }
    if query.len() > 0 {
        assert(target[qi] == query[0]);
    }
    lemma_find_char_run(target, '?', 0, qi);
    let sq = strip_query(target);
    assert(sq =~= slashes + path);
    assert forall|k: int| 0 <= k < ns implies #[trigger] sq[k] == '/' by {
        assert(sq[k] == slashes[k]);
    }
    if path.len() > 0 {
        assert(sq[ns] == path[0]);
    }
    lemma_skip_char_run(sq, '/', 0, ns);
    assert(trim_leading_slashes(sq) =~= path);
    if exists|i: int| 0 <= i && i + 1 < path.len() && path[i] == '.' && #[trigger] path[i + 1] == '.' {
        let i = choose|i: int|
            0 <= i && i + 1 < path.len() && path[i] == '.' && #[trigger] path[i + 1] == '.';
        assert(has_dot_dot(path));
        assert(path != config_json_name()) by {
            if path == config_json_name() {
                assert(path.len() == 11);
                assert(path[i] == config_json_name()[i]);
                assert(path[i + 1] == config_json_name()[i + 1]);
            }
        }
    }
}

} // verus!

verus! {

proof fn lemma_component_start_prefix(s1: Seq<char>, s2: Seq<char>, end: int)
    requires
        0 <= end <= s1.len(),
        end <= s2.len(),
        s1.subrange(0, end) == s2.subrange(0, end),
    ensures
        component_start(s1, end) == component_start(s2, end),
    decreases end,
{
    if end > 0 {
        assert(s1[end - 1] == s1.subrange(0, end)[end - 1]);
        assert(s2[end - 1] == s2.subrange(0, end)[end - 1]);
        assert(s1.subrange(0, end - 1) =~= s1.subrange(0, end).subrange(0, end - 1));
        assert(s2.subrange(0, end - 1) =~= s2.subrange(0, end).subrange(0, end - 1));
        lemma_component_start_prefix(s1, s2, end - 1);
    }
}

proof fn lemma_file_name_prefix(s1: Seq<char>, s2: Seq<char>, end: int)
    requires
        0 <= end <= s1.len(),
        end <= s2.len(),
        s1.subrange(0, end) == s2.subrange(0, end),
    ensures
        file_name_before(s1, end) == file_name_before(s2, end),
    decreases end,
{
    if end > 0 {
        lemma_component_start_prefix(s1, s2, end);
        lemma_component_start(s1, end);
        let st = component_start(s1, end);
        assert(s1.subrange(st, end) =~= s1.subrange(0, end).subrange(st, end));
        assert(s2.subrange(st, end) =~= s2.subrange(0, end).subrange(st, end));
        if st > 0 {
            assert(s1.subrange(0, st - 1) =~= s1.subrange(0, end).subrange(0, st - 1));
            assert(s2.subrange(0, st - 1) =~= s2.subrange(0, end).subrange(0, st - 1));
            lemma_file_name_prefix(s1, s2, st - 1);
        }
    }
}

/// Trailing separators and trailing `.` components do not change the file name.
pub proof fn file_name_ignores_trailing(s: Seq<char>)
    ensures
        file_name(s + seq!['/']) == file_name(s),
        file_name(s + seq!['/', '.']) == file_name(s),
{
    let t = s + seq!['/'];
    assert(t.subrange(0, s.len() as int) =~= s.subrange(0, s.len() as int));
    lemma_file_name_prefix(t, s, s.len() as int);
    assert(component_start(t, t.len() as int) == t.len());
    assert(t.subrange(t.len() as int, t.len() as int).len() == 0);
    let u = s + seq!['/', '.'];
    assert(u.subrange(0, s.len() as int) =~= s.subrange(0, s.len() as int));
    lemma_file_name_prefix(u, s, s.len() as int);
    assert(u[u.len() - 1] == '.');
    assert(u[u.len() - 2] == '/');
    assert(component_start(u, u.len() - 1) == u.len() - 1);
    assert(component_start(u, u.len() as int) == u.len() - 1);
    assert(u.subrange(u.len() - 1, u.len() as int) =~= seq!['.']);
}

/// A path that ends in a `..` component has no file name, so no extension.
pub proof fn parent_has_no_file_name(dir: Seq<char>)
    requires
        dir.len() == 0 || dir.last() == '/',
    ensures
        file_name(dir + seq!['.', '.']) is None,
{
    let p = dir + seq!['.', '.'];
    assert forall|k: int| dir.len() <= k < p.len() implies #[trigger] p[k] != '/' by {
        assert(p[k] == '.');
    }
    lemma_component_start_run(p, dir.len() as int, p.len() as int);
    assert(p.subrange(dir.len() as int, p.len() as int) =~= seq!['.', '.']);
}

} // verus!

verus! {

/// A request line with no target (only a method, perhaps followed by spaces)
/// is answered with `index.html`.
pub proof fn route_without_target(method: Seq<char>, spaces: Seq<char>, r: Route)
    requires
        forall|i: int| 0 <= i < method.len() ==> visible(#[trigger] method[i]),
        forall|i: int| 0 <= i < spaces.len() ==> #[trigger] spaces[i] == ' ',
        route_of(method + spaces, r),
    ensures
        r matches Route::File(f) && f@ == "index.html"@,
{
    reveal_strlit("index.html");
    assert("index.html"@ =~= index_html());
    let line = method + spaces;
    let m = method.len() as int;
    assert forall|k: int| 0 <= k < m implies !is_whitespace(#[trigger] line[k]) by {
        assert(line[k] == method[k]);
        assert(visible(method[k]));
    }
    assert forall|k: int| m <= k < line.len() implies is_whitespace(#[trigger] line[k]) by {
        assert(line[k] == spaces[k - m]);
    }
    if m > 0 {
        assert(!is_whitespace(line[0]));
        lemma_skip_space_run(line, 0, 0);
        lemma_skip_word_run(line, 0, m);
        lemma_skip_space_run(line, m, line.len() as int);
    } else {
        lemma_skip_space_run(line, 0, line.len() as int);
        lemma_skip_word_run(line, line.len() as int, line.len() as int);
        lemma_skip_space_run(line, line.len() as int, line.len() as int);
    }
    let t = seq!['/'];
    assert(request_target(line) == t);
    lemma_find_char_run(t, '?', 0, 1);
    assert(strip_query(t) =~= t);
    lemma_skip_char_run(t, '/', 0, 1);
    assert(trim_leading_slashes(t).len() == 0);
    assert(index_html() != config_json_name()) by {
        assert(index_html().len() != config_json_name().len());
    }
    assert(!has_dot_dot(index_html())) by {
        let s = index_html();
        assert forall|i: int| 0 <= i && i + 1 < s.len() && s[i] == '.' implies #[trigger] s[i + 1] != '.' by {
            assert(i == 5);
        }
    }
}

} // verus!
