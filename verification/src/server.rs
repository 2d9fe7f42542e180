//! The local HTTP API's decisions: which requests the host and token guards
//! let through, and how each mutation changes the review state.
//!
//! The posture is fixed: a loopback-literal `Host`, the page gated on `?t=`,
//! `/api/*` gated on the `X-Diffpane-Token` header only (a cookie there would
//! hand cross-site requests straight back), and `application/json` required
//! on mutations.

use vstd::prelude::*;

use crate::model::{Comment, Overall, ProgressState, Review, ReviewState, Verdict};
use crate::report::{has_open_fix, outcome_spec, progress_of, slice_text_of, Outcome};
use crate::session::hex_of;
use crate::text::{
    ascii_lower_seq, chars_of, extension_in, first_index, last_piece, lower_chars, plain_path, push_chars, push_str, same_chars, spells,
    split_chars, split_on, string_of, trim_chars, trim_end_of, trim_of, trim_start_of, views,
};
use crate::validate::{
    deref_opt, failed_with, get_of, str_of, validate_anchor, validate_body, validate_progress_state,
    validate_resolved, validate_verdict, anchor_of, body_text, progress_named, verdict_named, ApiError, Json,
};

verus! {

broadcast use vstd::string::group_string_axioms;

/// The largest request body the server reads.
pub const MAX_BODY_BYTES: usize = 1048576;

/// The cookie the page hands out for its own assets.
pub const COOKIE_NAME: &'static str = "diffpane_token";

/// How many ports past the preferred one `bind` tries.
pub const PORT_ATTEMPTS: u16 = 20;

/// The synthetic trailing chapter the UI appends to the review's own.
pub const UNSORTED: &'static str = "unsorted";

/// The `?t=` query of a page or asset request.
#[derive(Debug)]
pub struct TokenQuery {
    pub t: Option<String>,
}

/// Calls `getrandom::fill` on a 16-byte buffer: bytes from the operating
/// system's generator, or `None` when it cannot produce them. The contract
/// claims only that a filled buffer holds 16 bytes.
#[verifier::external_body]
fn os_random_bytes() -> (bytes: Option<Vec<u8>>)
    ensures
        bytes matches Some(b) ==> b@.len() == 16,
{
    let mut bytes = [0u8; 16];
    match getrandom::fill(&mut bytes) {
        Ok(()) => Some(bytes.to_vec()),
        Err(_) => None,
    }
}

/// 16 bytes from the operating system, as 32 hex digits. This token is the
/// whole of the access control, so it comes from the OS generator and not
/// from a fast PRNG. `None` when the OS has no randomness to give.
pub fn generate_token() -> (token: Option<String>)
    ensures
        token matches Some(t) ==> t@.len() == 32 && exists|b: Seq<u8>| b.len() == 16 && t@ == hex_of(b),
{
    match os_random_bytes() {
        Some(bytes) => {
            let token = crate::session::hex(bytes.as_slice());
            proof { crate::session::lemma_hex_len(bytes@); }
            Some(token)
        },
        None => None,
    }
}

proof fn lemma_or_xor(d: u8, x: u8, y: u8)
    ensures
        ((d | (x ^ y)) == 0) <==> (d == 0 && x == y),
{
    assert(((d | (x ^ y)) == 0) <==> (d == 0 && x == y)) by (bit_vector);
}

/// Whether two tokens are equal, looking at every byte whatever the first
/// difference: constant time within a length class (the lengths are not
/// secret).
pub fn safe_equal(left: &str, right: &str) -> (same: bool)
    ensures
        same == (left@ == right@),
{
    let a = left.as_bytes();
    let b = right.as_bytes();
    proof {
        vstd::utf8::encode_utf8_decode_utf8(left@);
        vstd::utf8::encode_utf8_decode_utf8(right@);
    }
    if a.len() != b.len() {
        return false;
    }
    let mut diff: u8 = 0;
    let mut k: usize = 0;
    while k < a.len()
        invariant
            k <= a@.len(),
            a@.len() == b@.len(),
            (diff == 0) == (forall|j: int| 0 <= j < k ==> a@[j] == b@[j]),
        decreases a@.len() - k,
    {
        proof { lemma_or_xor(diff, a@[k as int], b@[k as int]); }
        diff = diff | (a[k] ^ b[k]);
        k += 1;
    }
    if diff == 0 {
        assert(a@ =~= b@);
    }
    diff == 0
}

/// How many times `c` occurs in `s`.
pub open spec fn count_of(s: Seq<char>, c: char) -> nat
    decreases s.len(),
{
    if s.len() == 0 {
        0
    } else {
        count_of(s.drop_last(), c) + if s.last() == c { 1nat } else { 0nat }
    }
}

/// The last `c` in `s` before `to`.
pub open spec fn last_index(s: Seq<char>, c: char, to: int) -> Option<int>
    decreases to,
{
    if to <= 0 || to > s.len() {
        None
    } else if s[to - 1] == c {
        Some(to - 1)
    } else {
        last_index(s, c, to - 1)
    }
}

pub open spec fn all_ascii_digits(s: Seq<char>) -> bool {
    forall|i: int| 0 <= i < s.len() ==> '0' <= #[trigger] s[i] && s[i] <= '9'
}

/// A `Host` header without its port: `[::1]:8080` gives `::1` (and an
/// unclosed bracket gives nothing); an unbracketed IPv6 literal has no port
/// to strip; otherwise a trailing `:digits` goes.
pub open spec fn host_name_of(host: Seq<char>) -> Seq<char> {
    if host.len() > 0 && host[0] == '[' {
        let rest = host.drop_first();
        match first_index(rest, ']', 0) {
            Some(i) => rest.take(i),
            None => Seq::empty(),
        }
    } else if count_of(host, ':') > 1 {
        host
    } else {
        match last_index(host, ':', host.len() as int) {
            Some(i) => if host.len() - (i + 1) > 0 && all_ascii_digits(host.skip(i + 1)) {
                host.take(i)
            } else {
                host
            },
            None => host,
        }
    }
}

fn take_chars(v: &Vec<char>, from: usize, to: usize) -> (r: Vec<char>)
    requires
        from <= to <= v@.len(),
    ensures
        r@ == v@.subrange(from as int, to as int),
{
    let mut r: Vec<char> = Vec::new();
    let mut k = from;
    while k < to
        invariant
            from <= k <= to <= v@.len(),
            r@ == v@.subrange(from as int, k as int),
        decreases to - k,
    {
        r.push(v[k]);
        k += 1;
        assert(r@ =~= v@.subrange(from as int, k as int));
    }
    r
}

/// Strips the port from a `Host` header, tolerating `[::1]:8080` and a bare
/// unbracketed `::1`.
pub fn host_name(host: &str) -> (name: String)
    ensures
        name@ == host_name_of(host@),
{
    let chars = chars_of(host);
    let n = chars.len();
    if n > 0 && chars[0] == '[' {
        let rest = take_chars(&chars, 1, n);
        assert(rest@ =~= host@.drop_first());
        let mut i: usize = 0;
        while i < rest.len() && rest[i] != ']'
            invariant
                i <= rest@.len(),
                first_index(rest@, ']', 0) == first_index(rest@, ']', i as int),
            decreases rest@.len() - i,
        {
            i += 1;
        }
        if i < rest.len() {
            let name = take_chars(&rest, 0, i);
            assert(name@ =~= rest@.take(i as int));
            return string_of(&name);
        }
        return string_of(&Vec::new());
    }
    let mut colons: usize = 0;
    let mut k: usize = 0;
    while k < n
        invariant
            k <= n == chars@.len(),
            chars@ == host@,
            colons == count_of(chars@.take(k as int), ':'),
            colons <= k,
        decreases n - k,
    {
        assert(chars@.take(k + 1).drop_last() =~= chars@.take(k as int));
        if chars[k] == ':' {
            colons += 1;
        }
        k += 1;
    }
    assert(chars@.take(n as int) =~= chars@);
    if colons > 1 {
        return string_of(&chars);
    }
    let mut j: usize = n;
    while j > 0 && chars[j - 1] != ':'
        invariant
            j <= n == chars@.len(),
            last_index(chars@, ':', n as int) == last_index(chars@, ':', j as int),
        decreases j,
    {
        j -= 1;
    }
    if j == 0 {
        return string_of(&chars);
    }
    let colon = j - 1;
    let port = take_chars(&chars, colon + 1, n);
    assert(port@ =~= host@.skip(colon + 1));
    let mut digits = port.len() > 0;
    let mut m: usize = 0;
    while m < port.len()
        invariant
            m <= port@.len(),
            digits == (port@.len() > 0 && forall|x: int| 0 <= x < m ==> '0' <= #[trigger] port@[x] && port@[x] <= '9'),
        decreases port@.len() - m,
    {
        if !('0' <= port[m] && port[m] <= '9') {
            digits = false;
        }
        m += 1;
    }
    if !digits {
        return string_of(&chars);
    }
    let name = take_chars(&chars, 0, colon);
    assert(name@ =~= host@.take(colon as int));
    string_of(&name)
}

/// Whether a host names the loopback interface by a literal address.
/// `localhost` is a name, and a resolver that hands back something else is
/// precisely the rebinding attack this guards against.
pub open spec fn loopback_literal(host: Option<Seq<char>>) -> bool {
    match host {
        Some(h) => host_name_of(h) == "127.0.0.1"@ || host_name_of(h) == "::1"@,
        None => false,
    }
}

/// Rejects DNS rebinding: the browser must be talking to a loopback literal.
/// `host` is the `Host` header, `None` when it is missing or not text.
pub fn is_loopback_host(host: Option<&str>) -> (loopback: bool)
    ensures
        loopback == loopback_literal(slice_text_of(host)),
{
    match host {
        Some(h) => {
            let name = chars_of(host_name(h).as_str());
            spells(&name, "127.0.0.1") || spells(&name, "::1")
        },
        None => false,
    }
}

/// The essence of a media type: everything before the first `;`, trimmed
/// and lower-cased. A substring match once accepted
/// `text/plain; x=application/json`, which defeats requiring JSON.
pub open spec fn essence_of(content_type: Seq<char>) -> Seq<char> {
    let head = match first_index(content_type, ';', 0) {
        Some(i) => content_type.take(i),
        None => content_type,
    };
    ascii_lower_seq(trim_of(head))
}

/// The essence of a `Content-Type` header, empty when there is none.
pub fn media_type_essence(content_type: Option<&str>) -> (essence: String)
    ensures
        essence@ == essence_of(match slice_text_of(content_type) {
            Some(t) => t,
            None => Seq::empty(),
        }),
{
    let chars = match content_type {
        Some(t) => chars_of(t),
        None => Vec::new(),
    };
    let mut i: usize = 0;
    while i < chars.len() && chars[i] != ';'
        invariant
            i <= chars@.len(),
            first_index(chars@, ';', 0) == first_index(chars@, ';', i as int),
        decreases chars@.len() - i,
    {
        i += 1;
    }
    let head = take_chars(&chars, 0, i);
    if i == chars.len() {
        assert(head@ =~= chars@);
    }
    string_of(&lower_chars(&trim_chars(&head)))
}

/// The value of the cookie `name` in a `Cookie` header: the first
/// `;`-separated part that, trimmed, reads `name=value`.
pub open spec fn cookie_in(parts: Seq<Seq<char>>, name: Seq<char>, from: int) -> Seq<char>
    decreases parts.len() - from,
{
    if from < 0 || from >= parts.len() {
        Seq::empty()
    } else {
        let part = trim_of(parts[from]);
        match first_index(part, '=', 0) {
            Some(i) => if part.take(i) == name {
                part.skip(i + 1)
            } else {
                cookie_in(parts, name, from + 1)
            },
            None => cookie_in(parts, name, from + 1),
        }
    }
}

/// Reads one cookie from a `Cookie` header; empty when it is not there.
pub fn read_cookie(header: &str, name: &str) -> (value: String)
    ensures
        value@ == cookie_in(split_on(header@, ';'), name@, 0),
{
    let parts = split_chars(&chars_of(header), ';');
    let mut k: usize = 0;
    while k < parts.len()
        invariant
            k <= parts@.len(),
            parts@.len() == split_on(header@, ';').len(),
            forall|i: int| 0 <= i < parts@.len() ==> #[trigger] parts@[i]@ == split_on(header@, ';')[i],
            cookie_in(split_on(header@, ';'), name@, 0) == cookie_in(split_on(header@, ';'), name@, k as int),
        decreases parts@.len() - k,
    {
        let part = trim_chars(&parts[k]);
        let mut i: usize = 0;
        while i < part.len() && part[i] != '='
            invariant
                i <= part@.len(),
                first_index(part@, '=', 0) == first_index(part@, '=', i as int),
            decreases part@.len() - i,
        {
            i += 1;
        }
        if i < part.len() {
            let key = take_chars(&part, 0, i);
            if spells(&key, name) {
                let value = take_chars(&part, i + 1, part.len());
                assert(value@ =~= part@.skip(i + 1));
                return string_of(&value);
            }
        }
        k += 1;
    }
    string_of(&Vec::new())
}

/// Calls `std::path::Path::extension` on an asset name. For a name whose
/// last component every platform reads alike (`plain_path`), the contract
/// claims what the documentation gives: the extension of that last
/// `/`-piece. Of other names nothing is claimed, since what counts as a
/// component there depends on the platform.
#[verifier::external_body]
fn extension_of(name: &str) -> (extension: Option<String>)
    ensures
        plain_path(name@) ==> match extension {
            Some(e) => extension_in(last_piece(name@, '/')) == Some(e@),
            None => extension_in(last_piece(name@, '/')) is None,
        },
{
    match std::path::Path::new(name).extension() {
        Some(extension) => match extension.to_str() {
            Some(text) => Some(text.to_owned()),
            None => None,
        },
        None => None,
    }
}

pub open spec fn type_for_extension(extension: Option<Seq<char>>) -> Seq<char> {
    match extension {
        Some(e) => if e == "html"@ {
            "text/html; charset=utf-8"@
        } else if e == "js"@ {
            "text/javascript; charset=utf-8"@
        } else if e == "css"@ {
            "text/css; charset=utf-8"@
        } else if e == "json"@ {
            "application/json; charset=utf-8"@
        } else if e == "svg"@ {
            "image/svg+xml"@
        } else if e == "png"@ {
            "image/png"@
        } else if e == "ico"@ {
            "image/x-icon"@
        } else {
            "application/octet-stream"@
        },
        None => "application/octet-stream"@,
    }
}

/// The content type an extension is served with.
pub fn content_type_of(extension: Option<&str>) -> (content_type: &'static str)
    ensures
        content_type@ == type_for_extension(slice_text_of(extension)),
{
    match extension {
        Some(e) => {
            let e = chars_of(e);
            if spells(&e, "html") {
                "text/html; charset=utf-8"
            } else if spells(&e, "js") {
                "text/javascript; charset=utf-8"
            } else if spells(&e, "css") {
                "text/css; charset=utf-8"
            } else if spells(&e, "json") {
                "application/json; charset=utf-8"
            } else if spells(&e, "svg") {
                "image/svg+xml"
            } else if spells(&e, "png") {
                "image/png"
            } else if spells(&e, "ico") {
                "image/x-icon"
            } else {
                "application/octet-stream"
            }
        },
        None => "application/octet-stream",
    }
}

/// The content type an asset is served with, by its extension.
pub fn content_type_for(name: &str) -> (content_type: &'static str)
    ensures
        plain_path(name@) ==> content_type@ == type_for_extension(extension_in(last_piece(name@, '/'))),
        exists|extension: Option<Seq<char>>| content_type@ == type_for_extension(extension),
{
    let extension = extension_of(name);
    match &extension {
        Some(e) => {
            let content_type = content_type_of(Some(e.as_str()));
            assert(content_type@ == type_for_extension(Some(e@)));
            content_type
        },
        None => {
            let content_type = content_type_of(None);
            assert(content_type@ == type_for_extension(None));
            content_type
        },
    }
}

/// A request must name a loopback literal in `Host`.
pub fn guard_host(host: Option<&str>) -> (r: Result<(), ApiError>)
    ensures
        loopback_literal(slice_text_of(host)) ==> r is Ok,
        !loopback_literal(slice_text_of(host)) ==> failed_with(r, 403, "forbidden host"@),
{
    if is_loopback_host(host) {
        Ok(())
    } else {
        Err(ApiError::new("forbidden host", 403))
    }
}

/// The supplied token must be the session's.
pub fn require_token(supplied: &str, token: &str) -> (r: Result<(), ApiError>)
    ensures
        supplied@ == token@ ==> r is Ok,
        supplied@ != token@ ==> failed_with(r, 403, "missing or invalid token"@),
{
    if safe_equal(supplied, token) {
        return Ok(());
    }
    Err(ApiError::new("missing or invalid token", 403))
}

/// What the API guard answers: the host first, then the token header, then,
/// for anything but a GET, a JSON content type.
pub open spec fn api_guard(host: Option<Seq<char>>, supplied: Seq<char>, is_get: bool, content_type: Seq<char>, token: Seq<char>) -> Result<(), (u16, Seq<char>)> {
    if !loopback_literal(host) {
        Err((403u16, "forbidden host"@))
    } else if supplied != token {
        Err((403u16, "missing or invalid token"@))
    } else if !is_get && essence_of(content_type) != "application/json"@ {
        Err((415u16, "content-type must be application/json"@))
    } else {
        Ok(())
    }
}

pub open spec fn answers(r: Result<(), ApiError>, expected: Result<(), (u16, Seq<char>)>) -> bool {
    match expected {
        Ok(()) => r is Ok,
        Err((status, message)) => failed_with(r, status, message),
    }
}

/// The API is gated on the `X-Diffpane-Token` header and nothing else: a
/// custom header cannot be set cross-origin without a preflight, and the
/// asset cookie must never authorise it.
pub fn guard_api(host: Option<&str>, supplied: Option<&str>, is_get: bool, content_type: Option<&str>, token: &str) -> (r: Result<(), ApiError>)
    ensures
        answers(r, api_guard(
            slice_text_of(host),
            match slice_text_of(supplied) { Some(s) => s, None => Seq::empty() },
            is_get,
            match slice_text_of(content_type) { Some(s) => s, None => Seq::empty() },
            token@,
        )),
{
    match guard_host(host) {
        Ok(()) => {},
        Err(e) => {
            return Err(e);
        },
    }
    let given = match supplied {
        Some(s) => s,
        None => "",
    };
    proof {
        reveal_strlit("");
        assert(""@ =~= Seq::<char>::empty());
    }
    match require_token(given, token) {
        Ok(()) => {},
        Err(e) => {
            return Err(e);
        },
    }
    if !is_get {
        let essence = chars_of(media_type_essence(content_type).as_str());
        if !spells(&essence, "application/json") {
            return Err(ApiError::new("content-type must be application/json", 415));
        }
    }
    Ok(())
}

/// Whether an asset request carries the session token: the browser fetches
/// the page's assets on its own, so either the `?t=` value or the page's
/// cookie may carry it, and either one suffices.
pub open spec fn asset_authorised(query: Option<Seq<char>>, cookie_header: Seq<char>, token: Seq<char>) -> bool {
    (query matches Some(t) && t == token) || cookie_in(split_on(cookie_header, ';'), COOKIE_NAME@, 0) == token
}

/// The asset guard's token check: 403 unless the query or the cookie
/// carries the token.
pub fn require_asset_token(query: TokenQuery, cookie_header: &str, token: &str) -> (r: Result<(), ApiError>)
    ensures
        asset_authorised(match query.t { Some(t) => Some(t@), None => None }, cookie_header@, token@) ==> r is Ok,
        !asset_authorised(match query.t { Some(t) => Some(t@), None => None }, cookie_header@, token@)
            ==> failed_with(r, 403, "missing or invalid token"@),
{
    let from_query = match &query.t {
        Some(t) => safe_equal(t.as_str(), token),
        None => false,
    };
    let cookie = read_cookie(cookie_header, COOKIE_NAME);
    let from_cookie = safe_equal(cookie.as_str(), token);
    if from_query || from_cookie {
        Ok(())
    } else {
        Err(ApiError::new("missing or invalid token", 403))
    }
}

/// The cookie the page hands out so the browser can fetch its assets.
pub fn page_cookie(token: &str) -> (cookie: String)
    ensures
        cookie@ == COOKIE_NAME@ + "="@ + token@ + "; Path=/; SameSite=Strict; Max-Age=86400"@,
{
    let mut out = chars_of(COOKIE_NAME);
    push_str(&mut out, "=");
    push_str(&mut out, token);
    push_str(&mut out, "; Path=/; SameSite=Strict; Max-Age=86400");
    string_of(&out)
}

/// After a failed bind: the next port and the attempts left, or `None` to
/// give up. Only a port in use is retried, never for port 0 (which already
/// means any), and the walk is counted rather than compared against
/// `preferred + PORT_ATTEMPTS`, which overflows near the top of the range.
pub fn next_bind(preferred: u16, port: u16, attempts: u16, in_use: bool) -> (next: Option<(u16, u16)>)
    ensures
        next == (if in_use && preferred != 0 && attempts > 0 && port < u16::MAX {
            Some(((port + 1) as u16, (attempts - 1) as u16))
        } else {
            None
        }),
{
    if in_use && preferred != 0 && attempts > 0 && port < 65535 {
        Some((port + 1, attempts - 1))
    } else {
        None
    }
}

/// An empty body reads as `{}`; anything else must be a JSON object, since
/// every endpoint reads named members off it.
pub fn require_object(body: Json) -> (r: Result<Json, ApiError>)
    ensures
        body is Object ==> (r matches Ok(v) && v == body),
        !(body is Object) ==> failed_with(r, 400, "body must be a JSON object"@),
{
    if body.is_object() {
        Ok(body)
    } else {
        Err(ApiError::bad_request("body must be a JSON object"))
    }
}

/// Calls `fastrand::u8(..)`: a byte from a fast, seeded PRNG. Nothing is
/// claimed of it.
#[verifier::external_body]
fn random_byte() -> (byte: u8)
{
    fastrand::u8(..)
}

/// A fresh comment id: `c-` and three random bytes in hex.
pub fn fresh_comment_id() -> (id: String)
    ensures
        exists|b: Seq<u8>| b.len() == 3 && id@ == "c-"@ + hex_of(b),
{
    let mut bytes: Vec<u8> = Vec::new();
    bytes.push(random_byte());
    bytes.push(random_byte());
    bytes.push(random_byte());
    let digits = chars_of(crate::session::hex(bytes.as_slice()).as_str());
    let mut out = chars_of("c-");
    push_chars(&mut out, &digits);
    string_of(&out)
}

/// A copy of a string with the same text.
fn copy_text(s: &String) -> (r: String)
    ensures
        r@ == s@,
{
    string_of(&chars_of(s.as_str()))
}

/// A new comment from a request body: its anchor, verdict and body are
/// checked in that order, and it starts unresolved, made and updated at
/// `stamp`.
pub fn comment_from(body: &Json, id: String, stamp: &str) -> (r: Result<Comment, ApiError>)
    ensures
        match (anchor_of(get_of(*body, "anchor"@)), verdict_named(str_of(get_of(*body, "verdict"@)))) {
            (Err(message), _) => failed_with(r, 400, message),
            (Ok(_), None) => failed_with(r, 400, "verdict must be one of ok, fix, question"@),
            (Ok(anchor), Some(verdict)) => if body_text(get_of(*body, "body"@)).len() == 0 {
                failed_with(r, 400, "comment body is empty"@)
            } else {
                r matches Ok(c) && c.id@ == id@ && c.anchor@ == anchor && c.verdict == verdict
                    && c.body@ == body_text(get_of(*body, "body"@)) && c.created_at@ == stamp@
                    && c.updated_at@ == stamp@ && !c.resolved
            },
        },
{
    let anchor = validate_anchor(body.get("anchor"))?;
    let verdict = validate_verdict(body.get("verdict"))?;
    let text = validate_body(body.get("body"))?;
    Ok(Comment {
        id,
        anchor,
        verdict,
        body: text,
        created_at: string_of(&chars_of(stamp)),
        updated_at: string_of(&chars_of(stamp)),
        resolved: false,
    })
}

/// Appends a comment.
pub fn add_comment(state: &mut ReviewState, comment: Comment)
    ensures
        final(state).comments@ == old(state).comments@.push(comment),
        final(state).progress == old(state).progress,
        final(state).overall == old(state).overall,
        final(state).submitted == old(state).submitted,
        final(state).submitted_at == old(state).submitted_at,
{
    state.comments.push(comment);
}

/// The changes a PATCH asks for: each member that is present is checked, in
/// the order verdict, body, resolved.
pub struct Patch {
    pub verdict: Option<Verdict>,
    pub body: Option<String>,
    pub resolved: Option<bool>,
}

/// Reads a PATCH body: a present member must be valid, an absent one leaves
/// its field as it was. The members are checked in the order verdict,
/// body, resolved, and the first invalid one answers 400 with its message.
pub fn patch_from(body: &Json) -> (r: Result<Patch, ApiError>)
    ensures
        ({
            let verdict = get_of(*body, "verdict"@);
            let text = get_of(*body, "body"@);
            let resolved = get_of(*body, "resolved"@);
            if verdict is Some && verdict_named(str_of(verdict)) is None {
                failed_with(r, 400, "verdict must be one of ok, fix, question"@)
            } else if text is Some && body_text(text).len() == 0 {
                failed_with(r, 400, "comment body is empty"@)
            } else if resolved is Some && !(resolved matches Some(Json::Bool(_))) {
                failed_with(r, 400, "resolved must be a boolean"@)
            } else {
                r matches Ok(p) && {
                    &&& p.verdict == (if verdict is Some { verdict_named(str_of(verdict)) } else { None })
                    &&& (text is None <==> p.body is None)
                    &&& (p.body matches Some(t) ==> t@ == body_text(text))
                    &&& p.resolved == (match resolved {
                        Some(Json::Bool(f)) => Some(f),
                        _ => None,
                    })
                }
            }
        }),
{
    let verdict = match body.get("verdict") {
        Some(value) => Some(validate_verdict(Some(value))?),
        None => None,
    };
    let text = match body.get("body") {
        Some(value) => Some(validate_body(Some(value))?),
        None => None,
    };
    let resolved = match body.get("resolved") {
        Some(value) => Some(validate_resolved(Some(value))?),
        None => None,
    };
    Ok(Patch { verdict, body: text, resolved })
}

pub open spec fn first_with_id(comments: Seq<Comment>, id: Seq<char>, i: int) -> bool {
    &&& 0 <= i < comments.len()
    &&& comments[i].id@ == id
    &&& forall|j: int| 0 <= j < i ==> comments[j].id@ != id
}

/// What a patch makes of a comment: the fields it names change, the edit
/// time becomes `stamp`, everything else stays.
pub open spec fn patched(c: Comment, patch: Patch, stamp: Seq<char>, after: Comment) -> bool {
    &&& after.id == c.id
    &&& after.anchor == c.anchor
    &&& after.verdict == match patch.verdict { Some(v) => v, None => c.verdict }
    &&& after.body@ == match patch.body { Some(t) => t@, None => c.body@ }
    &&& after.resolved == match patch.resolved { Some(f) => f, None => c.resolved }
    &&& after.created_at == c.created_at
    &&& after.updated_at@ == stamp
}

/// The message for an id no comment has.
pub open spec fn no_such_comment(id: Seq<char>) -> Seq<char> {
    "no such comment: "@ + id
}

fn no_such_comment_error(id: &str) -> (e: ApiError)
    ensures
        e.status == 404,
        e.message@ == no_such_comment(id@),
{
    let mut message = chars_of("no such comment: ");
    push_str(&mut message, id);
    ApiError { status: 404, message: string_of(&message) }
}

/// Applies a patch to the first comment with `id` and returns its index;
/// 404 when no comment has it, and then nothing changes.
pub fn patch_comment(state: &mut ReviewState, id: &str, patch: Patch, stamp: &str) -> (r: Result<usize, ApiError>)
    ensures
        (forall|i: int| 0 <= i < old(state).comments@.len() ==> old(state).comments@[i].id@ != id@) ==> {
            &&& failed_with(r, 404, no_such_comment(id@))
            &&& *final(state) == *old(state)
        },
        r matches Ok(i) ==> {
            &&& first_with_id(old(state).comments@, id@, i as int)
            &&& final(state).comments@.len() == old(state).comments@.len()
            &&& patched(old(state).comments@[i as int], patch, stamp@, final(state).comments@[i as int])
            &&& forall|j: int| 0 <= j < old(state).comments@.len() && j != i ==> final(state).comments@[j] == old(state).comments@[j]
            &&& final(state).progress == old(state).progress
            &&& final(state).overall == old(state).overall
            &&& final(state).submitted == old(state).submitted
            &&& final(state).submitted_at == old(state).submitted_at
        },
        (exists|i: int| 0 <= i < old(state).comments@.len() && old(state).comments@[i].id@ == id@) ==> r is Ok,
{
    let want = chars_of(id);
    let mut k: usize = 0;
    while k < state.comments.len()
        invariant
            k <= state.comments@.len(),
            want@ == id@,
            *state == *old(state),
            forall|j: int| 0 <= j < k ==> state.comments@[j].id@ != id@,
        decreases state.comments@.len() - k,
    {
        let here = chars_of(state.comments[k].id.as_str());
        if same_chars(&here, &want) {
            let ghost before = state.comments@;
            let mut comment = state.comments.remove(k);
            match patch.verdict {
                Some(v) => {
                    comment.verdict = v;
                },
                None => {},
            }
            match patch.body {
                Some(t) => {
                    comment.body = t;
                },
                None => {},
            }
            match patch.resolved {
                Some(f) => {
                    comment.resolved = f;
                },
                None => {},
            }
            comment.updated_at = string_of(&chars_of(stamp));
            state.comments.insert(k, comment);
            assert forall|j: int| 0 <= j < before.len() && j != k implies state.comments@[j] == before[j] by {
                if j < k {
                } else {
                }
            }
            return Ok(k);
        }
        k += 1;
    }
    Err(no_such_comment_error(id))
}

pub open spec fn keeps_id(id: Seq<char>) -> spec_fn(Comment) -> bool {
    |c: Comment| c.id@ != id
}

/// Deletes every comment with `id`; 404 when none has it, and then nothing
/// changes.
pub fn delete_comment(state: &mut ReviewState, id: &str) -> (r: Result<(), ApiError>)
    ensures
        final(state).comments@ == old(state).comments@.filter(keeps_id(id@)),
        final(state).progress == old(state).progress,
        final(state).overall == old(state).overall,
        final(state).submitted == old(state).submitted,
        final(state).submitted_at == old(state).submitted_at,
        r is Ok <==> exists|i: int| 0 <= i < old(state).comments@.len() && old(state).comments@[i].id@ == id@,
        r is Err ==> failed_with(r, 404, no_such_comment(id@)),
{
    let want = chars_of(id);
    let ghost start = state.comments@;
    let mut kept: Vec<Comment> = Vec::new();
    let mut removed = false;
    let mut taken: Vec<Comment> = Vec::new();
    std::mem::swap(&mut taken, &mut state.comments);
    let ghost all = taken@;
    assert(all == start);
    let total = taken.len();
    let mut k: usize = 0;
    while taken.len() > 0
        invariant
            want@ == id@,
            all == start,
            all.len() == total,
            k + taken@.len() == all.len(),
            taken@ == all.skip(k as int),
            kept@ == all.take(k as int).filter(keeps_id(id@)),
            removed == exists|i: int| 0 <= i < k && all[i].id@ == id@,
        decreases taken@.len(),
    {
        let comment = taken.remove(0);
        proof {
            assert(all.take(k + 1) == all.take(k as int).push(comment));
            all.take(k as int).lemma_filter_push(comment, keeps_id(id@));
            assert(taken@ =~= all.skip(k + 1));
        }
        let here = chars_of(comment.id.as_str());
        if same_chars(&here, &want) {
            removed = true;
        } else {
            kept.push(comment);
        }
        k += 1;
    }
    assert(all.take(k as int) =~= all);
    state.comments = kept;
    if !removed {
        return Err(no_such_comment_error(id));
    }
    Ok(())
}

/// Whether a chapter id is one progress may be recorded for: the review's
/// own chapters and the synthetic `unsorted` one.
pub open spec fn chapter_known(review: Option<Review>, chapter: Seq<char>) -> bool {
    ||| chapter == UNSORTED@
    ||| match review {
        Some(r) => exists|i: int| #![trigger r.chapters@[i]] 0 <= i < r.chapters@.len() && r.chapters@[i].id@ == chapter,
        None => false,
    }
}

pub fn knows_chapter(review: Option<&Review>, chapter: &str) -> (known: bool)
    ensures
        known == chapter_known(crate::report::review_of(review), chapter@),
{
    let want = chars_of(chapter);
    if spells(&want, UNSORTED) {
        return true;
    }
    match review {
        Some(r) => {
            let mut k: usize = 0;
            while k < r.chapters.len()
                invariant
                    k <= r.chapters@.len(),
                    want@ == chapter@,
                    crate::report::review_of(review) == Some(*r),
                    forall|i: int| #![trigger r.chapters@[i]] 0 <= i < k ==> r.chapters@[i].id@ != chapter@,
                decreases r.chapters@.len() - k,
            {
                let here = chars_of(r.chapters[k].id.as_str());
                if same_chars(&here, &want) {
                    assert(r.chapters@[k as int].id@ == chapter@);
                    return true;
                }
                k += 1;
            }
            false
        },
        None => false,
    }
}

/// The message for a chapter the review does not have.
pub open spec fn no_such_chapter(chapter: Seq<char>) -> Seq<char> {
    "no such chapter: "@ + chapter
}

/// The chapter a progress update names: a non-empty string.
pub fn progress_chapter(body: &Json) -> (r: Result<String, ApiError>)
    ensures
        match str_of(get_of(*body, "chapter"@)) {
            Some(chapter) => if chapter.len() == 0 {
                failed_with(r, 400, "chapter is required"@)
            } else {
                r matches Ok(c) && c@ == chapter
            },
            None => failed_with(r, 400, "chapter is required"@),
        },
{
    let chapter = match body.get("chapter") {
        Some(Json::String(s)) => chars_of(s.as_str()),
        _ => {
            return Err(ApiError::bad_request("chapter is required"));
        },
    };
    if chapter.len() == 0 {
        return Err(ApiError::bad_request("chapter is required"));
    }
    Ok(string_of(&chapter))
}

/// Reads a progress update: a non-empty `chapter` string the review knows,
/// then a valid `state`.
pub fn progress_request(body: &Json, review: Option<&Review>) -> (r: Result<(String, ProgressState), ApiError>)
    ensures
        match str_of(get_of(*body, "chapter"@)) {
            Some(chapter) => if chapter.len() == 0 {
                failed_with(r, 400, "chapter is required"@)
            } else if !chapter_known(crate::report::review_of(review), chapter) {
                failed_with(r, 400, no_such_chapter(chapter))
            } else {
                match progress_named(str_of(get_of(*body, "state"@))) {
                    Some(p) => r matches Ok((c, v)) && c@ == chapter && v == p,
                    None => failed_with(r, 400, "state must be one of unreviewed, reviewed"@),
                }
            },
            None => failed_with(r, 400, "chapter is required"@),
        },
{
    let name = match progress_chapter(body) {
        Ok(name) => name,
        Err(error) => {
            return Err(error);
        },
    };
    if !knows_chapter(review, name.as_str()) {
        let mut message = chars_of("no such chapter: ");
        push_str(&mut message, name.as_str());
        return Err(ApiError::bad_request(string_of(&message).as_str()));
    }
    let value = validate_progress_state(body.get("state"))?;
    Ok((name, value))
}

/// No chapter id has two progress entries.
pub open spec fn keys_unique(progress: Seq<(String, ProgressState)>) -> bool {
    forall|i: int, j: int| 0 <= i < j < progress.len() ==> (#[trigger] progress[i]).0@ != (#[trigger] progress[j]).0@
}

/// The progress map after recording `value` for `chapter`: the entry is
/// replaced where the chapter has one, appended where it has none, so the
/// map keeps one entry per chapter.
pub fn set_progress(state: &mut ReviewState, chapter: String, value: ProgressState)
    ensures
        keys_unique(old(state).progress@) ==> keys_unique(final(state).progress@),
        progress_of(final(state).progress@, chapter@, 0) == Some(value),
        forall|other: Seq<char>| other != chapter@ ==> progress_of(final(state).progress@, other, 0)
            == progress_of(old(state).progress@, other, 0),
        final(state).comments == old(state).comments,
        final(state).overall == old(state).overall,
        final(state).submitted == old(state).submitted,
        final(state).submitted_at == old(state).submitted_at,
{
    let want = chars_of(chapter.as_str());
    let ghost old_progress = state.progress@;
    let mut k: usize = 0;
    while k < state.progress.len()
        invariant
            k <= state.progress@.len(),
            state.progress@ == old_progress,
            *state == *old(state),
            want@ == chapter@,
            forall|j: int| 0 <= j < k ==> state.progress@[j].0@ != chapter@,
        decreases state.progress@.len() - k,
    {
        let here = chars_of(state.progress[k].0.as_str());
        if same_chars(&here, &want) {
            let ghost key = chapter@;
            state.progress.remove(k);
            state.progress.insert(k, (chapter, value));
            proof { lemma_progress_update(old_progress, state.progress@, k as int, key, value); }
            return;
        }
        k += 1;
    }
    let ghost key = chapter@;
    state.progress.push((chapter, value));
    proof { lemma_progress_push(old_progress, state.progress@, key, value); }
}

proof fn lemma_progress_from_prefix(p: Seq<(String, ProgressState)>, q: Seq<(String, ProgressState)>, id: Seq<char>, from: int, upto: int)
    requires
        0 <= from <= upto <= p.len(),
        upto <= q.len(),
        forall|j: int| from <= j < upto ==> p[j] == q[j],
        forall|j: int| from <= j < upto ==> p[j].0@ != id,
    ensures
        progress_of(p, id, from) == progress_of(p, id, upto),
        progress_of(q, id, from) == progress_of(q, id, upto),
    decreases upto - from,
{
    if from < upto {
        lemma_progress_from_prefix(p, q, id, from + 1, upto);
    }
}

proof fn lemma_progress_update(p: Seq<(String, ProgressState)>, q: Seq<(String, ProgressState)>, k: int, key: Seq<char>, value: ProgressState)
    requires
        0 <= k < p.len(),
        q.len() == p.len(),
        p[k].0@ == key,
        q[k].0@ == key,
        q[k].1 == value,
        forall|j: int| 0 <= j < p.len() && j != k ==> q[j] == p[j],
        forall|j: int| 0 <= j < k ==> p[j].0@ != key,
    ensures
        progress_of(q, key, 0) == Some(value),
        forall|other: Seq<char>| other != key ==> progress_of(q, other, 0) == progress_of(p, other, 0),
{
    lemma_progress_from_prefix(p, q, key, 0, k);
    assert forall|other: Seq<char>| other != key implies progress_of(q, other, 0) == progress_of(p, other, 0) by {
        lemma_progress_same(p, q, other, 0, k);
    }
}

proof fn lemma_progress_same(p: Seq<(String, ProgressState)>, q: Seq<(String, ProgressState)>, other: Seq<char>, from: int, k: int)
    requires
        0 <= from <= p.len(),
        q.len() == p.len(),
        0 <= k < p.len(),
        p[k].0@ != other,
        q[k].0@ != other,
        forall|j: int| 0 <= j < p.len() && j != k ==> q[j] == p[j],
    ensures
        progress_of(q, other, from) == progress_of(p, other, from),
    decreases p.len() - from,
{
    if from < p.len() {
        lemma_progress_same(p, q, other, from + 1, k);
    }
}

proof fn lemma_progress_push(p: Seq<(String, ProgressState)>, q: Seq<(String, ProgressState)>, key: Seq<char>, value: ProgressState)
    requires
        q == p.push((q.last().0, value)),
        q.last().0@ == key,
        forall|j: int| 0 <= j < p.len() ==> p[j].0@ != key,
    ensures
        progress_of(q, key, 0) == Some(value),
        forall|other: Seq<char>| other != key ==> progress_of(q, other, 0) == progress_of(p, other, 0),
{
    lemma_progress_from_prefix(p, q, key, 0, p.len() as int);
    assert forall|other: Seq<char>| other != key implies progress_of(q, other, 0) == progress_of(p, other, 0) by {
        lemma_progress_tail(p, q, other, 0);
    }
}

proof fn lemma_progress_tail(p: Seq<(String, ProgressState)>, q: Seq<(String, ProgressState)>, other: Seq<char>, from: int)
    requires
        0 <= from <= p.len(),
        q.len() == p.len() + 1,
        q.last().0@ != other,
        forall|j: int| 0 <= j < p.len() ==> q[j] == p[j],
    ensures
        progress_of(q, other, from) == progress_of(p, other, from),
    decreases p.len() - from,
{
    if from < p.len() {
        lemma_progress_tail(p, q, other, from + 1);
    } else {
        assert(progress_of(q, other, from + 1) == None::<ProgressState>);
    }
}

/// The overall verdict and note a request body gives, or the error it
/// answers: a missing or null verdict is none, any other must be a valid
/// name; the note is the trimmed `body` string, empty for anything else.
pub open spec fn overall_of(body: Json) -> Result<(Option<Verdict>, Seq<char>), Seq<char>> {
    let note = body_text(get_of(body, "body"@));
    match get_of(body, "verdict"@) {
        None => Ok((None, note)),
        Some(Json::Null) => Ok((None, note)),
        Some(v) => match verdict_named(str_of(Some(v))) {
            Some(verdict) => Ok((Some(verdict), note)),
            None => Err("verdict must be one of ok, fix, question"@),
        },
    }
}

/// An overall verdict and note from a request body: a missing or null
/// verdict is none, any other must be valid; the note is the trimmed
/// `body` string, empty for anything else.
pub fn parse_overall(body: &Json) -> (r: Result<Overall, ApiError>)
    ensures
        match get_of(*body, "verdict"@) {
            None => r matches Ok(o) && o.verdict is None && o.body@ == body_text(get_of(*body, "body"@)),
            Some(Json::Null) => r matches Ok(o) && o.verdict is None && o.body@ == body_text(get_of(*body, "body"@)),
            Some(v) => match verdict_named(str_of(Some(v))) {
                Some(verdict) => r matches Ok(o) && o.verdict == Some(verdict) && o.body@ == body_text(get_of(*body, "body"@)),
                None => failed_with(r, 400, "verdict must be one of ok, fix, question"@),
            },
        },
{
    let verdict = match body.get("verdict") {
        None => None,
        Some(Json::Null) => None,
        Some(value) => Some(validate_verdict(Some(value))?),
    };
    let text = match body.get("body") {
        Some(Json::String(s)) => trim_chars(&chars_of(s.as_str())),
        _ => Vec::new(),
    };
    Ok(Overall { verdict, body: string_of(&text) })
}

/// Records the overall verdict and note.
pub fn set_overall(state: &mut ReviewState, overall: Overall)
    ensures
        final(state).overall == overall,
        final(state).comments == old(state).comments,
        final(state).progress == old(state).progress,
        final(state).submitted == old(state).submitted,
        final(state).submitted_at == old(state).submitted_at,
{
    state.overall = overall;
}

/// Submits the review at `stamp`. An `overall` object in the body replaces
/// the overall verdict first; if it is invalid, nothing changes.
pub fn submit(state: &mut ReviewState, body: &Json, stamp: &str) -> (r: Result<(), ApiError>)
    ensures
        r is Err ==> *final(state) == *old(state),
        r is Ok ==> {
            &&& final(state).submitted
            &&& final(state).submitted_at matches Some(at) && at@ == stamp@
            &&& final(state).comments == old(state).comments
            &&& final(state).progress == old(state).progress
            &&& (!(get_of(*body, "overall"@) matches Some(Json::Object(_))) ==> final(state).overall == old(state).overall)
        },
        !(get_of(*body, "overall"@) matches Some(Json::Object(_))) ==> r is Ok,
        get_of(*body, "overall"@) matches Some(o) ==> (o is Object ==> match overall_of(o) {
            Ok((verdict, note)) => r is Ok && final(state).overall.verdict == verdict && final(state).overall.body@ == note,
            Err(message) => failed_with(r, 400, message),
        }),
{
    match body.get("overall") {
        Some(overall) => {
            if overall.is_object() {
                let parsed = parse_overall(overall)?;
                state.overall = parsed;
            }
        },
        None => {},
    }
    state.submitted = true;
    state.submitted_at = Some(string_of(&chars_of(stamp)));
    Ok(())
}

proof fn lemma_filter_keeps_all(s: Seq<Comment>, pred: spec_fn(Comment) -> bool)
    requires
        forall|i: int| 0 <= i < s.len() ==> pred(#[trigger] s[i]),
    ensures
        s.filter(pred) == s,
    decreases s.len(),
{
    reveal(Seq::filter);
    if s.len() > 0 {
        lemma_filter_keeps_all(s.drop_last(), pred);
        assert(s.drop_last().push(s.last()) =~= s);
    }
}

/// After a delete, no comment carries the deleted id.
pub proof fn deleted_id_is_gone(comments: Seq<Comment>, id: Seq<char>)
    ensures
        forall|i: int| 0 <= i < comments.filter(keeps_id(id)).len() ==> (#[trigger] comments.filter(keeps_id(id))[i]).id@ != id,
{
    assert forall|i: int| 0 <= i < comments.filter(keeps_id(id)).len() implies (#[trigger] comments.filter(keeps_id(id))[i]).id@ != id by {
        comments.lemma_filter_pred(keeps_id(id), i);
    }
}

/// Adding a comment under an id no comment has, then deleting that id,
/// gives back the comments as they were.
pub proof fn delete_undoes_add(comments: Seq<Comment>, added: Comment)
    requires
        forall|i: int| 0 <= i < comments.len() ==> (#[trigger] comments[i]).id@ != added.id@,
    ensures
        comments.push(added).filter(keeps_id(added.id@)) == comments,
{
    reveal(Seq::filter);
    assert(comments.push(added).drop_last() =~= comments);
    lemma_filter_keeps_all(comments, keeps_id(added.id@));
}

/// Resolving a comment never adds a reason to request changes: an approved
/// review stays approved. And resolving the one open fix comment of a
/// submitted review whose overall verdict is not fix approves it.
pub proof fn resolving_never_blocks(before: ReviewState, after: ReviewState, i: int, patch: Patch, stamp: Seq<char>)
    requires
        0 <= i < before.comments@.len(),
        after.comments@.len() == before.comments@.len(),
        patched(before.comments@[i], patch, stamp, after.comments@[i]),
        patch.verdict is None,
        patch.resolved == Some(true),
        forall|j: int| 0 <= j < before.comments@.len() && j != i ==> after.comments@[j] == before.comments@[j],
        after.overall == before.overall,
        after.submitted == before.submitted,
    ensures
        outcome_spec(before) == Outcome::Approved ==> outcome_spec(after) == Outcome::Approved,
        (after.submitted && after.overall.verdict != Some(Verdict::Fix)
            && forall|j: int| 0 <= j < before.comments@.len() && j != i
                ==> !(!before.comments@[j].resolved && before.comments@[j].verdict == Verdict::Fix))
            ==> outcome_spec(after) == Outcome::Approved,
{
    if has_open_fix(after.comments@) {
        let j = choose|j: int| 0 <= j < after.comments@.len() && !after.comments@[j].resolved && after.comments@[j].verdict == Verdict::Fix;
        assert(j != i);
        assert(after.comments@[j] == before.comments@[j]);
        assert(has_open_fix(before.comments@));
    }
}

/// The name and value the page's cookie sets, which is what the browser
/// sends back.
pub open spec fn cookie_pair(token: Seq<char>) -> Seq<char> {
    COOKIE_NAME@ + "="@ + token
}

/// The cookie the page hands out authorises the page's own assets: its
/// name-value pair (what precedes its first `;`) is what the browser sends
/// back, and reading that back gives the session token. Tokens are hex.
pub proof fn page_cookie_reads_back(token: Seq<char>)
    requires
        forall|i: int| 0 <= i < token.len() ==> ('0' <= #[trigger] token[i] && token[i] <= '9') || ('a' <= token[i] && token[i] <= 'f'),
    ensures
        split_on(cookie_pair(token) + "; Path=/; SameSite=Strict; Max-Age=86400"@, ';')[0] == cookie_pair(token),
        cookie_in(split_on(cookie_pair(token), ';'), COOKIE_NAME@, 0) == token,
{
    reveal_strlit("diffpane_token");
    reveal_strlit("=");
    reveal_strlit("; Path=/; SameSite=Strict; Max-Age=86400");
    reveal_strlit(" Path=/; SameSite=Strict; Max-Age=86400");
    let pair = cookie_pair(token);
    assert(pair.len() == 15 + token.len());
    assert forall|i: int| 0 <= i < pair.len() implies pair[i] != ';' by {
        if i >= 15 {
            assert(pair[i] == token[i - 15]);
        }
    }
    crate::text::lemma_split_without_sep(pair, ';');
    let rest = " Path=/; SameSite=Strict; Max-Age=86400"@;
    lemma_split_concat(pair, rest, ';');
    assert(pair + "; Path=/; SameSite=Strict; Max-Age=86400"@ =~= pair.push(';') + rest);
    crate::text::lemma_split_nonempty(rest, ';');
    // Reading the pair back: it is its own trimmed part, and its first `=`
    // ends the name.
    assert(pair[0] == 'd');
    assert(pair.last() == if token.len() > 0 { token.last() } else { '=' });
    assert(trim_start_of(pair) == pair);
    assert(trim_end_of(pair) == pair);
    assert forall|i: int| 0 <= i < 14 implies pair[i] != '=' by {}
    crate::text::lemma_first_index_at(pair, '=', 0, 14);
    assert(pair.take(14) =~= COOKIE_NAME@);
    assert(pair.skip(15) =~= token);
}

/// Splitting `x ; y` splits `x` and `y` and puts the pieces in a row.
proof fn lemma_split_concat(x: Seq<char>, y: Seq<char>, sep: char)
    ensures
        split_on(x.push(sep) + y, sep) == split_on(x, sep) + split_on(y, sep),
    decreases y.len(),
{
    if y.len() == 0 {
        assert(x.push(sep) + y =~= x.push(sep));
        assert(x.push(sep).drop_last() =~= x);
        assert(split_on(x.push(sep), sep) == split_on(x, sep).push(Seq::<char>::empty()));
        assert(split_on(y, sep) =~= seq![Seq::<char>::empty()]);
        assert(split_on(x, sep).push(Seq::<char>::empty()) =~= split_on(x, sep) + seq![Seq::<char>::empty()]);
    } else {
        let whole = x.push(sep) + y;
        lemma_split_concat(x, y.drop_last(), sep);
        assert(whole.drop_last() =~= x.push(sep) + y.drop_last());
        assert(whole.last() == y.last());
        crate::text::lemma_split_nonempty(y.drop_last(), sep);
        crate::text::lemma_split_nonempty(x, sep);
        let left = split_on(x, sep);
        let right = split_on(y.drop_last(), sep);
        if y.last() == sep {
            assert(split_on(whole, sep) =~= (left + right).push(Seq::<char>::empty()));
            assert(split_on(y, sep) =~= right.push(Seq::<char>::empty()));
            assert((left + right).push(Seq::<char>::empty()) =~= left + right.push(Seq::<char>::empty()));
        } else {
            let pieces = left + right;
            assert(split_on(whole, sep) =~= pieces.update(pieces.len() - 1, pieces.last().push(y.last())));
            assert(split_on(y, sep) =~= right.update(right.len() - 1, right.last().push(y.last())));
            assert(pieces.update(pieces.len() - 1, pieces.last().push(y.last()))
                =~= left + right.update(right.len() - 1, right.last().push(y.last())));
        }
    }
}

/// The API answers only the token header: a request without it is refused
/// (unless the token were empty), whatever cookies it carries.
pub proof fn the_api_needs_the_token_header(host: Option<Seq<char>>, is_get: bool, content_type: Seq<char>, token: Seq<char>)
    requires
        token.len() > 0,
    ensures
        api_guard(host, Seq::empty(), is_get, content_type, token) is Err,
{
}

} // verus!
