//! Session naming: the slug a review is filed under, and the directory name
//! that keeps two checkouts with one basename apart (`<basename>-<sha256[..8]>`).

use vstd::prelude::*;

use sha2::{Digest, Sha256};

use crate::text::{ascii_lower, chars_of, decimal, decimal_of, last_piece, plain_path, push_chars, push_str, string_of};

verus! {

broadcast use vstd::string::group_string_axioms;

/// The longest slug, in characters (all of them ASCII).
pub const SLUG_MAX: usize = 48;

/// The advisory lock file each open run holds in its directory.
pub const LOCK_FILE: &'static str = ".lock";

/// How many suffixed directories to try before deciding something is wrong.
pub const SESSION_ATTEMPTS: usize = 20;

pub open spec fn is_ascii_alnum(c: char) -> bool {
    ||| ('a' <= c && c <= 'z')
    ||| ('A' <= c && c <= 'Z')
    ||| ('0' <= c && c <= '9')
}

/// Letters and digits kept (lower-cased), every other run of characters
/// folded into one `-`.
pub open spec fn slug_raw(s: Seq<char>) -> Seq<char>
    decreases s.len(),
{
    if s.len() == 0 {
        Seq::empty()
    } else {
        let prev = slug_raw(s.drop_last());
        let c = s.last();
        if is_ascii_alnum(c) {
            prev.push(ascii_lower(c))
        } else if prev.len() > 0 && prev.last() == '-' {
            prev
        } else {
            prev.push('-')
        }
    }
}

pub open spec fn trim_front(s: Seq<char>) -> Seq<char>
    decreases s.len(),
{
    if s.len() > 0 && s[0] == '-' {
        trim_front(s.drop_first())
    } else {
        s
    }
}

pub open spec fn trim_back(s: Seq<char>) -> Seq<char>
    decreases s.len(),
{
    if s.len() > 0 && s.last() == '-' {
        trim_back(s.drop_last())
    } else {
        s
    }
}

/// The slug of a title: folded, trimmed of dashes, cut to `SLUG_MAX`
/// characters, and `review` when nothing is left.
pub open spec fn slug_of(s: Seq<char>) -> Seq<char> {
    let trimmed = trim_back(trim_front(slug_raw(s)));
    let capped = if trimmed.len() > SLUG_MAX { trimmed.take(SLUG_MAX as int) } else { trimmed };
    if capped.len() == 0 {
        "review"@
    } else {
        capped
    }
}

/// Lower-case letters, digits and dashes, with no two dashes in a row.
pub open spec fn clean_slug_text(s: Seq<char>) -> bool {
    &&& forall|i: int| 0 <= i < s.len() ==> slug_char(#[trigger] s[i])
    &&& forall|i: int| 0 <= i < s.len() - 1 ==> !(#[trigger] s[i] == '-' && s[i + 1] == '-')
}

pub open spec fn slug_char(c: char) -> bool {
    ||| ('a' <= c && c <= 'z')
    ||| ('0' <= c && c <= '9')
    ||| c == '-'
}

proof fn lemma_raw_clean(s: Seq<char>)
    ensures
        clean_slug_text(slug_raw(s)),
    decreases s.len(),
{
    if s.len() > 0 {
        lemma_raw_clean(s.drop_last());
        let prev = slug_raw(s.drop_last());
        let out = slug_raw(s);
        assert forall|i: int| 0 <= i < out.len() implies slug_char(#[trigger] out[i]) by {
            if i < prev.len() {
                assert(out[i] == prev[i]);
            }
        }
        assert forall|i: int| 0 <= i < out.len() - 1 implies !(#[trigger] out[i] == '-' && out[i + 1] == '-') by {
            if i + 1 < prev.len() {
                assert(out[i] == prev[i] && out[i + 1] == prev[i + 1]);
            }
        }
    }
}

proof fn lemma_subrange_clean(s: Seq<char>, lo: int, hi: int)
    requires
        clean_slug_text(s),
        0 <= lo <= hi <= s.len(),
    ensures
        clean_slug_text(s.subrange(lo, hi)),
{
    let t = s.subrange(lo, hi);
    assert forall|i: int| 0 <= i < t.len() implies slug_char(#[trigger] t[i]) by {
        assert(t[i] == s[lo + i]);
    }
    assert forall|i: int| 0 <= i < t.len() - 1 implies !(#[trigger] t[i] == '-' && t[i + 1] == '-') by {
        assert(t[i] == s[lo + i] && t[i + 1] == s[lo + i + 1]);
    }
}

proof fn lemma_trim_front_shape(s: Seq<char>)
    ensures
        exists|lo: int| 0 <= lo <= s.len() && trim_front(s) == s.subrange(lo, s.len() as int),
        trim_front(s).len() > 0 ==> trim_front(s)[0] != '-',
    decreases s.len(),
{
    if s.len() > 0 && s[0] == '-' {
        lemma_trim_front_shape(s.drop_first());
        let lo = choose|lo: int| 0 <= lo <= s.drop_first().len() && trim_front(s.drop_first()) == s.drop_first().subrange(lo, s.drop_first().len() as int);
        assert(s.drop_first().subrange(lo, s.drop_first().len() as int) =~= s.subrange(lo + 1, s.len() as int));
    } else {
        assert(s.subrange(0, s.len() as int) =~= s);
    }
}

proof fn lemma_trim_back_shape(s: Seq<char>)
    ensures
        exists|hi: int| 0 <= hi <= s.len() && trim_back(s) == s.subrange(0, hi),
        trim_back(s).len() > 0 ==> trim_back(s)[0] == s[0],
    decreases s.len(),
{
    if s.len() > 0 && s.last() == '-' {
        lemma_trim_back_shape(s.drop_last());
        let hi = choose|hi: int| 0 <= hi <= s.drop_last().len() && trim_back(s.drop_last()) == s.drop_last().subrange(0, hi);
        assert(s.drop_last().subrange(0, hi) =~= s.subrange(0, hi));
    } else {
        assert(s.subrange(0, s.len() as int) =~= s);
    }
}

/// A slug is never empty, holds at most `SLUG_MAX` characters, is made of
/// lower-case ASCII letters, digits and single dashes, and does not start
/// with a dash.
pub proof fn slug_shape(title: Seq<char>)
    ensures
        0 < slug_of(title).len() <= SLUG_MAX,
        clean_slug_text(slug_of(title)),
        slug_of(title)[0] != '-',
{
    let raw = slug_raw(title);
    lemma_raw_clean(title);
    lemma_trim_front_shape(raw);
    let front = trim_front(raw);
    let lo = choose|lo: int| 0 <= lo <= raw.len() && front == raw.subrange(lo, raw.len() as int);
    lemma_subrange_clean(raw, lo, raw.len() as int);
    lemma_trim_back_shape(front);
    let trimmed = trim_back(front);
    let hi = choose|hi: int| 0 <= hi <= front.len() && trimmed == front.subrange(0, hi);
    lemma_subrange_clean(front, 0, hi);
    if trimmed.len() > SLUG_MAX {
        lemma_subrange_clean(trimmed, 0, SLUG_MAX as int);
        assert(trimmed.take(SLUG_MAX as int) =~= trimmed.subrange(0, SLUG_MAX as int));
    }
    if slug_of(title) == "review"@ {
        reveal_strlit("review");
    }
}

proof fn lemma_trim_front_step(s: Seq<char>, lo: int)
    requires
        0 <= lo < s.len(),
        s[lo] == '-',
    ensures
        trim_front(s.subrange(lo, s.len() as int)) == trim_front(s.subrange(lo + 1, s.len() as int)),
{
    assert(s.subrange(lo, s.len() as int).drop_first() =~= s.subrange(lo + 1, s.len() as int));
}

proof fn lemma_trim_back_step(s: Seq<char>, lo: int, hi: int)
    requires
        0 <= lo < hi <= s.len(),
        s[hi - 1] == '-',
    ensures
        trim_back(s.subrange(lo, hi)) == trim_back(s.subrange(lo, hi - 1)),
{
    assert(s.subrange(lo, hi).drop_last() =~= s.subrange(lo, hi - 1));
}

fn is_ascii_alnum_exec(c: char) -> (r: bool)
    ensures
        r == is_ascii_alnum(c),
{
    ('a' <= c && c <= 'z') || ('A' <= c && c <= 'Z') || ('0' <= c && c <= '9')
}

fn lower_char(c: char) -> (r: char)
    ensures
        r == ascii_lower(c),
{
    if 'A' <= c && c <= 'Z' {
        ((c as u8) + 32) as char
    } else {
        c
    }
}

/// The slug a review title is filed under.
pub fn slugify(text: &str) -> (slug: String)
    ensures
        slug@ == slug_of(text@),
{
    let chars = chars_of(text);
    let mut raw: Vec<char> = Vec::new();
    let mut i: usize = 0;
    while i < chars.len()
        invariant
            i <= chars@.len(),
            chars@ == text@,
            raw@ == slug_raw(chars@.take(i as int)),
        decreases chars@.len() - i,
    {
        let c = chars[i];
        assert(chars@.take(i + 1).drop_last() =~= chars@.take(i as int));
        if is_ascii_alnum_exec(c) {
            raw.push(lower_char(c));
        } else if !(raw.len() > 0 && raw[raw.len() - 1] == '-') {
            raw.push('-');
        }
        i += 1;
    }
    assert(chars@.take(chars@.len() as int) =~= chars@);
    let len = raw.len();
    let mut lo: usize = 0;
    assert(raw@.subrange(0, len as int) =~= raw@);
    while lo < len && raw[lo] == '-'
        invariant
            lo <= len,
            len == raw@.len(),
            trim_front(raw@) == trim_front(raw@.subrange(lo as int, len as int)),
        decreases len - lo,
    {
        proof { lemma_trim_front_step(raw@, lo as int); }
        lo += 1;
    }
    assert(trim_front(raw@) == raw@.subrange(lo as int, len as int));
    let mut hi: usize = len;
    while hi > lo && raw[hi - 1] == '-'
        invariant
            lo <= hi <= len,
            len == raw@.len(),
            trim_front(raw@) == raw@.subrange(lo as int, len as int),
            trim_back(trim_front(raw@)) == trim_back(raw@.subrange(lo as int, hi as int)),
        decreases hi - lo,
    {
        proof { lemma_trim_back_step(raw@, lo as int, hi as int); }
        hi -= 1;
    }
    let end = if hi - lo > SLUG_MAX { lo + SLUG_MAX } else { hi };
    let mut out: Vec<char> = Vec::new();
    let mut k: usize = lo;
    while k < end
        invariant
            lo <= k <= end <= hi <= len,
            len == raw@.len(),
            out@ == raw@.subrange(lo as int, k as int),
        decreases end - k,
    {
        out.push(raw[k]);
        k += 1;
        assert(out@ =~= raw@.subrange(lo as int, k as int));
    }
    proof {
        let trimmed = raw@.subrange(lo as int, hi as int);
        assert(trim_back(trim_front(raw@)) == trimmed);
        if trimmed.len() > SLUG_MAX {
            assert(trimmed.take(SLUG_MAX as int) =~= out@);
        } else {
            assert(trimmed =~= out@);
        }
    }
    if out.len() == 0 {
        string_of(&chars_of("review"))
    } else {
        string_of(&out)
    }
}

/// A nibble as a lower-case hex digit.
pub open spec fn hex_digit(n: nat) -> char {
    if n < 10 {
        (('0' as u32) + n) as char
    } else {
        (('a' as u32) + n - 10) as char
    }
}

/// Each byte as two lower-case hex digits.
pub open spec fn hex_of(bytes: Seq<u8>) -> Seq<char>
    decreases bytes.len(),
{
    if bytes.len() == 0 {
        Seq::empty()
    } else {
        hex_of(bytes.drop_last()) + seq![hex_digit((bytes.last() / 16) as nat), hex_digit((bytes.last() % 16) as nat)]
    }
}

fn hex_digit_exec(n: u8) -> (c: char)
    requires
        n < 16,
    ensures
        c == hex_digit(n as nat),
{
    if n < 10 {
        (48u8 + n) as char
    } else {
        (87u8 + n) as char
    }
}

/// Bytes as lower-case hex.
pub fn hex(bytes: &[u8]) -> (out: String)
    ensures
        out@ == hex_of(bytes@),
{
    let mut digits: Vec<char> = Vec::new();
    let mut i: usize = 0;
    while i < bytes.len()
        invariant
            i <= bytes@.len(),
            digits@ == hex_of(bytes@.take(i as int)),
        decreases bytes@.len() - i,
    {
        let b = bytes[i];
        assert(bytes@.take(i + 1).drop_last() =~= bytes@.take(i as int));
        let ghost before = digits@;
        digits.push(hex_digit_exec(b / 16));
        digits.push(hex_digit_exec(b % 16));
        assert(digits@ =~= before + seq![hex_digit((b / 16) as nat), hex_digit((b % 16) as nat)]);
        i += 1;
    }
    assert(bytes@.take(bytes@.len() as int) =~= bytes@);
    string_of(&digits)
}

/// What SHA-256 makes of a byte string.
pub uninterp spec fn sha256_digest(bytes: Seq<u8>) -> Seq<u8>;

/// Calls `sha2::Sha256::digest`. The contract claims the result is
/// `sha256_digest` of the input and, as the type of the digest shows, that it
/// is 32 bytes long.
#[verifier::external_body]
fn sha256(bytes: &[u8]) -> (digest: Vec<u8>)
    ensures
        digest@ == sha256_digest(bytes@),
        digest@.len() == 32,
{
    Sha256::digest(bytes).to_vec()
}

/// Calls `std::path::Path::file_name` on the path and decodes the name
/// lossily (a name cut from a `&str` decodes as it was). For a path whose
/// last component every platform reads alike (`plain_path`), the contract
/// claims what the documentation gives: the final component, which is the
/// last `/`-piece. Of other paths nothing is claimed, since what counts as a
/// separator or a prefix there depends on the platform.
#[verifier::external_body]
fn file_name_of(path: &str) -> (found: Option<String>)
    ensures
        match found {
            Some(n) => plain_path(path@) ==> n@ == last_piece(path@, '/'),
            None => !plain_path(path@),
        },
{
    match std::path::Path::new(path).file_name() {
        Some(name) => Some(name.to_string_lossy().into_owned()),
        None => None,
    }
}

/// `<name>-<the first eight hex digits of sha256(path)>`, where `name` is
/// the path's last component, or the whole path when it has none.
pub open spec fn directory_name(path: Seq<char>, file_name: Option<Seq<char>>) -> Seq<char> {
    let name = match file_name {
        Some(n) => n,
        None => path,
    };
    name + "-"@ + hex_of(sha256_digest(vstd::utf8::encode_utf8(path))).take(8)
}

/// Two hex digits per byte.
pub proof fn lemma_hex_len(bytes: Seq<u8>)
    ensures
        hex_of(bytes).len() == 2 * bytes.len(),
    decreases bytes.len(),
{
    if bytes.len() > 0 {
        lemma_hex_len(bytes.drop_last());
    }
}

/// The directory name for a repository root whose last component is
/// `file_name` (as the platform's path rules find it).
pub fn name_directory(repo_root: &str, file_name: Option<String>) -> (name: String)
    ensures
        name@ == directory_name(repo_root@, match file_name {
            Some(n) => Some(n@),
            None => None,
        }),
{
    let digest = sha256(repo_root.as_bytes());
    let digits = chars_of(hex(digest.as_slice()).as_str());
    proof { lemma_hex_len(digest@); }
    let mut out: Vec<char> = match &file_name {
        Some(n) => chars_of(n.as_str()),
        None => chars_of(repo_root),
    };
    push_str(&mut out, "-");
    let ghost head = out@;
    let mut k: usize = 0;
    while k < 8
        invariant
            k <= 8,
            digits@.len() == 64,
            out@ == head + digits@.take(k as int),
        decreases 8 - k,
    {
        out.push(digits[k]);
        k += 1;
        assert(out@ =~= head + digits@.take(k as int));
    }
    string_of(&out)
}

/// The session directory's name for a repository root: its basename and a
/// hash of the whole path, so two checkouts with one basename stay apart.
pub fn fingerprint(repo_root: &str) -> (name: String)
    ensures
        plain_path(repo_root@) ==> name@ == directory_name(repo_root@, Some(last_piece(repo_root@, '/'))),
        exists|file_name: Option<Seq<char>>| name@ == directory_name(repo_root@, file_name),
{
    let file_name = file_name_of(repo_root);
    let ghost seen = match &file_name {
        Some(n) => Some(n@),
        None => None,
    };
    let name = name_directory(repo_root, file_name);
    assert(name@ == directory_name(repo_root@, seen));
    name
}

/// The name of the session directory a run tries on its `attempt`-th go:
/// the slug itself first, then `<slug>-2`, `<slug>-3`, ...
pub open spec fn attempt_name(slug: Seq<char>, attempt: nat) -> Seq<char> {
    if attempt <= 1 {
        slug
    } else {
        slug + "-"@ + decimal_of(attempt)
    }
}

pub fn attempt_slug(slug: &str, attempt: usize) -> (name: String)
    ensures
        name@ == attempt_name(slug@, attempt as nat),
{
    let mut out = chars_of(slug);
    if attempt > 1 {
        push_str(&mut out, "-");
        let digits = decimal(attempt as u64);
        push_chars(&mut out, &digits);
    }
    string_of(&out)
}

} // verus!
