//! Character-level text helpers shared by the parsers and renderers.

use vstd::prelude::*;

verus! {

broadcast use vstd::string::group_string_axioms;

/// The characters of `s`, in order.
pub fn chars_of(s: &str) -> (v: Vec<char>)
    ensures
        v@ == s@,
{
    let mut v: Vec<char> = Vec::new();
    for c in it: s.chars()
        invariant
            v@ == it.seq().take(it.index() as int),
            it.seq() == s@,
    {
        v.push(c);
        assert(v@ == it.seq().take(it.index() + 1));
    }
    v
}

/// Calls `Iterator::collect` into a `String`: the string holds exactly the
/// given characters, in order, as std documents for `String: FromIterator<&char>`.
#[verifier::external_body]
pub(crate) fn string_of(v: &Vec<char>) -> (s: String)
    ensures
        s@ == v@,
{
    v.iter().collect()
}

/// Whether two character vectors hold the same characters.
pub fn same_chars(a: &Vec<char>, b: &Vec<char>) -> (r: bool)
    ensures
        r == (a@ == b@),
{
    if a.len() != b.len() {
        return false;
    }
    let mut k: usize = 0;
    while k < a.len()
        invariant
            k <= a.len(),
            a.len() == b.len(),
            forall|j: int| 0 <= j < k ==> a@[j] == b@[j],
        decreases a.len() - k,
    {
        if a[k] != b[k] {
            return false;
        }
        k += 1;
    }
    assert(a@ =~= b@);
    true
}

/// Whether the characters of `a` spell the string `b`.
pub fn spells(a: &Vec<char>, b: &str) -> (r: bool)
    ensures
        r == (a@ == b@),
{
    let bc = chars_of(b);
    same_chars(a, &bc)
}

/// `s` split at every `sep`, as `str::split` does: `n` separators give
/// `n + 1` pieces, empty ones included.
pub open spec fn split_on(s: Seq<char>, sep: char) -> Seq<Seq<char>>
    decreases s.len(),
{
    if s.len() == 0 {
        seq![Seq::<char>::empty()]
    } else if s.last() == sep {
        split_on(s.drop_last(), sep).push(Seq::<char>::empty())
    } else {
        let pieces = split_on(s.drop_last(), sep);
        pieces.update(pieces.len() - 1, pieces.last().push(s.last()))
    }
}

/// There is always at least one piece.
pub proof fn lemma_split_nonempty(s: Seq<char>, sep: char)
    ensures
        split_on(s, sep).len() >= 1,
    decreases s.len(),
{
    if s.len() > 0 {
        lemma_split_nonempty(s.drop_last(), sep);
    }
}

/// The last `sep`-separated piece of `s`: everything after its final `sep`.
pub open spec fn last_piece(s: Seq<char>, sep: char) -> Seq<char> {
    split_on(s, sep).last()
}

/// A path whose last component every platform's path rules read alike: it
/// holds no backslash and no colon, does not start with `//`, and its last
/// `/`-piece is a name (neither empty nor `.` nor `..`). That piece is then
/// the path's file name.
pub open spec fn plain_path(p: Seq<char>) -> bool {
    &&& !p.contains('\\')
    &&& !p.contains(':')
    &&& !(p.len() >= 2 && p[0] == '/' && p[1] == '/')
    &&& last_piece(p, '/').len() > 0
    &&& last_piece(p, '/') != seq!['.']
    &&& last_piece(p, '/') != seq!['.', '.']
}

/// The extension of a file name, as `Path::extension` documents it: none
/// without a dot, none for a name that starts with its only dot, else what
/// follows the final dot.
pub open spec fn extension_in(file_name: Seq<char>) -> Option<Seq<char>> {
    if !file_name.contains('.') {
        None
    } else if file_name[0] == '.' && !file_name.skip(1).contains('.') {
        None
    } else {
        Some(last_piece(file_name, '.'))
    }
}

/// ASCII lowercasing of one character, as `char::to_ascii_lowercase`.
pub open spec fn ascii_lower(c: char) -> char {
    if 'A' <= c && c <= 'Z' {
        ((c as u32) + 32) as char
    } else {
        c
    }
}

/// ASCII lowercasing of a whole string, as `str::to_ascii_lowercase`.
pub open spec fn ascii_lower_seq(s: Seq<char>) -> Seq<char> {
    s.map_values(|c: char| ascii_lower(c))
}

pub open spec fn starts_with(s: Seq<char>, prefix: Seq<char>) -> bool {
    prefix.len() <= s.len() && s.take(prefix.len() as int) == prefix
}

pub open spec fn ends_with(s: Seq<char>, suffix: Seq<char>) -> bool {
    suffix.len() <= s.len() && s.skip(s.len() - suffix.len()) == suffix
}

/// Splits characters at every `sep`.
pub fn split_chars(v: &Vec<char>, sep: char) -> (r: Vec<Vec<char>>)
    ensures
        r@.len() == split_on(v@, sep).len(),
        forall|i: int| 0 <= i < r@.len() ==> #[trigger] r@[i]@ == split_on(v@, sep)[i],
{
    let mut done: Vec<Vec<char>> = Vec::new();
    let mut current: Vec<char> = Vec::new();
    let mut k: usize = 0;
    while k < v.len()
        invariant
            k <= v.len(),
            done@.len() + 1 == split_on(v@.take(k as int), sep).len(),
            forall|i: int| 0 <= i < done@.len() ==> #[trigger] done@[i]@ == split_on(v@.take(k as int), sep)[i],
            current@ == split_on(v@.take(k as int), sep).last(),
        decreases v.len() - k,
    {
        let ghost before = v@.take(k as int);
        assert(v@.take(k + 1).drop_last() == before);
        proof { lemma_split_nonempty(before, sep); }
        if v[k] == sep {
            done.push(current);
            current = Vec::new();
        } else {
            current.push(v[k]);
        }
        k += 1;
    }
    assert(v@.take(v.len() as int) == v@);
    done.push(current);
    done
}

/// The ASCII-lowercased characters.
pub fn lower_chars(v: &Vec<char>) -> (r: Vec<char>)
    ensures
        r@ == ascii_lower_seq(v@),
{
    let mut r: Vec<char> = Vec::new();
    let mut k: usize = 0;
    while k < v.len()
        invariant
            k <= v.len(),
            r@ == ascii_lower_seq(v@.take(k as int)),
        decreases v.len() - k,
    {
        let c = v[k];
        let l = if 'A' <= c && c <= 'Z' { ((c as u8) + 32) as char } else { c };
        r.push(l);
        k += 1;
        assert(r@ =~= ascii_lower_seq(v@.take(k as int)));
    }
    assert(v@.take(v.len() as int) == v@);
    r
}

/// Whether `v` ends with the string `suffix`.
pub fn ends_with_str(v: &Vec<char>, suffix: &str) -> (r: bool)
    ensures
        r == ends_with(v@, suffix@),
{
    let s = chars_of(suffix);
    if s.len() > v.len() {
        return false;
    }
    let off = v.len() - s.len();
    let mut k: usize = 0;
    while k < s.len()
        invariant
            k <= s.len(),
            off + s.len() == v.len(),
            s@ == suffix@,
            forall|j: int| 0 <= j < k ==> v@[off + j] == s@[j],
        decreases s.len() - k,
    {
        if v[off + k] != s[k] {
            assert(v@.skip(off as int)[k as int] != s@[k as int]);
            return false;
        }
        k += 1;
    }
    assert(v@.skip(off as int) =~= s@);
    true
}

/// Whether `v` starts with the string `prefix`.
pub fn starts_with_str(v: &Vec<char>, prefix: &str) -> (r: bool)
    ensures
        r == starts_with(v@, prefix@),
{
    let s = chars_of(prefix);
    if s.len() > v.len() {
        return false;
    }
    let mut k: usize = 0;
    while k < s.len()
        invariant
            k <= s.len(),
            s.len() <= v.len(),
            s@ == prefix@,
            forall|j: int| 0 <= j < k ==> v@[j] == s@[j],
        decreases s.len() - k,
    {
        if v[k] != s[k] {
            assert(v@.take(s.len() as int)[k as int] != s@[k as int]);
            return false;
        }
        k += 1;
    }
    assert(v@.take(s.len() as int) =~= s@);
    true
}

/// Whether `v` holds `c` anywhere.
pub fn has_char(v: &Vec<char>, c: char) -> (r: bool)
    ensures
        r == v@.contains(c),
{
    let mut k: usize = 0;
    while k < v.len()
        invariant
            k <= v.len(),
            forall|j: int| 0 <= j < k ==> v@[j] != c,
        decreases v.len() - k,
    {
        if v[k] == c {
            return true;
        }
        k += 1;
    }
    false
}

/// Appends the characters of `s`.
pub fn push_str(out: &mut Vec<char>, s: &str)
    ensures
        final(out)@ == old(out)@ + s@,
{
    let chars = chars_of(s);
    push_chars(out, &chars);
}

/// Appends the characters of `v`.
pub fn push_chars(out: &mut Vec<char>, v: &Vec<char>)
    ensures
        final(out)@ == old(out)@ + v@,
{
    let ghost start = out@;
    let mut k: usize = 0;
    while k < v.len()
        invariant
            k <= v@.len(),
            out@ == start + v@.take(k as int),
        decreases v@.len() - k,
    {
        out.push(v[k]);
        k += 1;
        assert(out@ =~= start + v@.take(k as int));
    }
    assert(v@.take(v@.len() as int) == v@);
}

pub open spec fn digit_char(d: nat) -> char {
    (('0' as u32) + d) as char
}

/// The decimal spelling of `n`, without leading zeros.
pub open spec fn decimal_of(n: nat) -> Seq<char>
    decreases n,
{
    if n < 10 {
        seq![digit_char(n)]
    } else {
        decimal_of(n / 10).push(digit_char(n % 10))
    }
}

/// The decimal spelling of `n`.
pub fn decimal(n: u64) -> (r: Vec<char>)
    ensures
        r@ == decimal_of(n as nat),
    decreases n,
{
    let d = (n % 10) as u8;
    let c = ((48u8 + d) as char);
    if n < 10 {
        let mut r: Vec<char> = Vec::new();
        r.push(c);
        r
    } else {
        let mut r = decimal(n / 10);
        r.push(c);
        r
    }
}

/// The texts held by a sequence of character vectors.
pub open spec fn views(lines: Seq<Vec<char>>) -> Seq<Seq<char>> {
    Seq::new(lines.len(), |i: int| lines[i]@)
}

/// `lines` joined with `sep` between neighbours, as `[..].join(sep)`.
pub open spec fn joined(lines: Seq<Seq<char>>, sep: Seq<char>) -> Seq<char>
    decreases lines.len(),
{
    if lines.len() == 0 {
        Seq::<char>::empty()
    } else if lines.len() == 1 {
        lines[0]
    } else {
        joined(lines.drop_last(), sep) + sep + lines.last()
    }
}

/// Joins lines with a separator.
pub fn join_lines(lines: &Vec<Vec<char>>, sep: &str) -> (r: Vec<char>)
    ensures
        r@ == joined(views(lines@), sep@),
{
    let mut r: Vec<char> = Vec::new();
    let mut k: usize = 0;
    while k < lines.len()
        invariant
            k <= lines@.len(),
            r@ == joined(views(lines@).take(k as int), sep@),
        decreases lines@.len() - k,
    {
        let ghost before = views(lines@).take(k as int);
        assert(views(lines@).take(k + 1).drop_last() == before);
        if k > 0 {
            push_str(&mut r, sep);
        }
        push_chars(&mut r, &lines[k]);
        k += 1;
        assert(r@ =~= joined(views(lines@).take(k as int), sep@));
    }
    assert(views(lines@).take(lines@.len() as int) == views(lines@));
    r
}

/// Unicode `White_Space`, which `char::is_whitespace` (and so `str::trim`)
/// goes by.
pub open spec fn is_space(c: char) -> bool {
    let u = c as u32;
    ||| (0x09 <= u && u <= 0x0D)
    ||| u == 0x20
    ||| u == 0x85
    ||| u == 0xA0
    ||| u == 0x1680
    ||| (0x2000 <= u && u <= 0x200A)
    ||| u == 0x2028
    ||| u == 0x2029
    ||| u == 0x202F
    ||| u == 0x205F
    ||| u == 0x3000
}

pub fn is_space_exec(c: char) -> (r: bool)
    ensures
        r == is_space(c),
{
    let u = c as u32;
    (0x09 <= u && u <= 0x0D) || u == 0x20 || u == 0x85 || u == 0xA0 || u == 0x1680
        || (0x2000 <= u && u <= 0x200A) || u == 0x2028 || u == 0x2029 || u == 0x202F
        || u == 0x205F || u == 0x3000
}

/// `s` without its trailing white space, as `str::trim_end`.
pub open spec fn trim_end_of(s: Seq<char>) -> Seq<char>
    decreases s.len(),
{
    if s.len() > 0 && is_space(s.last()) {
        trim_end_of(s.drop_last())
    } else {
        s
    }
}

/// `s` without its leading white space, as `str::trim_start`.
pub open spec fn trim_start_of(s: Seq<char>) -> Seq<char>
    decreases s.len(),
{
    if s.len() > 0 && is_space(s[0]) {
        trim_start_of(s.drop_first())
    } else {
        s
    }
}

/// `s` without white space at either end, as `str::trim`.
pub open spec fn trim_of(s: Seq<char>) -> Seq<char> {
    trim_end_of(trim_start_of(s))
}

/// Drops trailing white space.
pub fn trim_end_chars(v: &Vec<char>) -> (r: Vec<char>)
    ensures
        r@ == trim_end_of(v@),
{
    let mut hi: usize = v.len();
    assert(v@.take(v@.len() as int) =~= v@);
    while hi > 0 && is_space_exec(v[hi - 1])
        invariant
            hi <= v@.len(),
            trim_end_of(v@) == trim_end_of(v@.take(hi as int)),
        decreases hi,
    {
        assert(v@.take(hi as int).drop_last() =~= v@.take(hi - 1));
        hi -= 1;
    }
    let mut r: Vec<char> = Vec::new();
    let mut k: usize = 0;
    while k < hi
        invariant
            k <= hi <= v@.len(),
            r@ == v@.take(k as int),
        decreases hi - k,
    {
        r.push(v[k]);
        k += 1;
        assert(r@ =~= v@.take(k as int));
    }
    r
}

/// Drops white space at both ends.
pub fn trim_chars(v: &Vec<char>) -> (r: Vec<char>)
    ensures
        r@ == trim_of(v@),
{
    let len = v.len();
    let mut lo: usize = 0;
    assert(v@.subrange(0, len as int) =~= v@);
    while lo < len && is_space_exec(v[lo])
        invariant
            lo <= len,
            len == v@.len(),
            trim_start_of(v@) == trim_start_of(v@.subrange(lo as int, len as int)),
        decreases len - lo,
    {
        assert(v@.subrange(lo as int, len as int).drop_first() =~= v@.subrange(lo + 1, len as int));
        lo += 1;
    }
    let mut rest: Vec<char> = Vec::new();
    let mut k: usize = lo;
    while k < len
        invariant
            lo <= k <= len,
            len == v@.len(),
            rest@ == v@.subrange(lo as int, k as int),
        decreases len - k,
    {
        rest.push(v[k]);
        k += 1;
        assert(rest@ =~= v@.subrange(lo as int, k as int));
    }
    trim_end_chars(&rest)
}

/// Where `pat` first occurs in `s` at or after `from`.
pub open spec fn find_from(s: Seq<char>, pat: Seq<char>, from: int) -> Option<int>
    decreases s.len() + 1 - from,
{
    if from < 0 || from > s.len() || from + pat.len() > s.len() {
        None
    } else if s.subrange(from, from + pat.len()) == pat {
        Some(from)
    } else {
        find_from(s, pat, from + 1)
    }
}

pub proof fn lemma_find_from_bounds(s: Seq<char>, pat: Seq<char>, from: int)
    ensures
        find_from(s, pat, from) matches Some(i) ==> from <= i && i + pat.len() <= s.len()
            && s.subrange(i, i + pat.len()) == pat,
    decreases s.len() + 1 - from,
{
    if !(from < 0 || from > s.len() || from + pat.len() > s.len()) && s.subrange(from, from + pat.len()) != pat {
        lemma_find_from_bounds(s, pat, from + 1);
    }
}

/// Where `pat` first occurs in `v`.
pub fn find_chars(v: &Vec<char>, pat: &str) -> (r: Option<usize>)
    ensures
        match find_from(v@, pat@, 0) {
            Some(i) => r == Some(i as usize),
            None => r is None,
        },
{
    let p = chars_of(pat);
    let mut i: usize = 0;
    while p.len() <= v.len() - i
        invariant
            i <= v@.len(),
            p@ == pat@,
            find_from(v@, pat@, 0) == find_from(v@, pat@, i as int),
        decreases v@.len() - i,
    {
        let mut k: usize = 0;
        let mut same = true;
        while k < p.len()
            invariant
                i <= v@.len() <= usize::MAX,
                p@.len() <= v@.len() - i,
                k <= p@.len(),
                same == (forall|j: int| 0 <= j < k ==> v@[i + j] == p@[j]),
            decreases p@.len() - k,
        {
            if v[i + k] != p[k] {
                same = false;
            }
            k += 1;
        }
        if same {
            assert(v@.subrange(i as int, i + p@.len()) =~= p@);
            return Some(i);
        }
        assert(v@.subrange(i as int, i + p@.len()) != p@) by {
            let j = choose|j: int| 0 <= j < p@.len() && v@[i + j] != p@[j];
            assert(v@.subrange(i as int, i + p@.len())[j] != p@[j]);
        }
        i += 1;
    }
    None
}

/// The first `c` in `s` at or after `from`.
pub open spec fn first_index(s: Seq<char>, c: char, from: int) -> Option<int>
    decreases s.len() - from,
{
    if from < 0 || from >= s.len() {
        None
    } else if s[from] == c {
        Some(from)
    } else {
        first_index(s, c, from + 1)
    }
}

/// A text without `sep` is one piece.
pub proof fn lemma_split_without_sep(s: Seq<char>, sep: char)
    requires
        forall|i: int| 0 <= i < s.len() ==> s[i] != sep,
    ensures
        split_on(s, sep) == seq![s],
    decreases s.len(),
{
    if s.len() == 0 {
        assert(s =~= Seq::<char>::empty());
    } else {
        lemma_split_without_sep(s.drop_last(), sep);
        assert(s.last() != sep);
        assert(s.drop_last().push(s.last()) =~= s);
        let pieces = split_on(s.drop_last(), sep);
        assert(pieces.update(pieces.len() - 1, pieces.last().push(s.last())) =~= seq![s]);
    }
}

/// Where the first `c` at or after `from` is, when `k` is such a place and
/// nothing between is one.
pub proof fn lemma_first_index_at(s: Seq<char>, c: char, from: int, k: int)
    requires
        0 <= from <= k < s.len(),
        s[k] == c,
        forall|i: int| from <= i < k ==> s[i] != c,
    ensures
        first_index(s, c, from) == Some(k),
    decreases k - from,
{
    if from < k {
        lemma_first_index_at(s, c, from + 1, k);
    }
}

/// The characters of `v` from `from` up to `to`.
pub fn sub_chars(v: &Vec<char>, from: usize, to: usize) -> (r: Vec<char>)
    requires
        from <= to <= v@.len(),
    ensures
        r@ == v@.subrange(from as int, to as int),
{
    let mut r: Vec<char> = Vec::new();
    let mut k = from;
    while k < to
        invariant
            from <= k <= to <= v@.len(),
            r@ == v@.subrange(from as int, k as int),
        decreases to - k,
    {
        r.push(v[k]);
        k += 1;
        assert(r@ =~= v@.subrange(from as int, k as int));
    }
    r
}

} // verus!
