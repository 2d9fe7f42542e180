//! Which files are worth reading line by line, and what to highlight them as.

use vstd::prelude::*;

use crate::text::{
    ascii_lower, ascii_lower_seq, chars_of, ends_with, ends_with_str, has_char, last_piece, lower_chars,
    spells, split_chars, split_on, starts_with, starts_with_str, lemma_split_nonempty,
};

verus! {

/// Lockfiles, generated output and vendored trees. Their diffs are real, they
/// are just never read; the UI folds them and the line cap is tighter.
pub const NOISE_NAMES: [&'static str; 11] = [
    "package-lock.json",
    "pnpm-lock.yaml",
    "pnpm-lock.yml",
    "yarn.lock",
    "npm-shrinkwrap.json",
    "poetry.lock",
    "Pipfile.lock",
    "Cargo.lock",
    "composer.lock",
    "go.sum",
    "uv.lock",
];

pub const NOISE_DIRS: [&'static str; 9] = [
    "node_modules",
    "vendor",
    "dist",
    "build",
    "out",
    "coverage",
    ".next",
    "__pycache__",
    "__snapshots__",
];

pub const NOISE_SUFFIXES: [&'static str; 7] = [
    ".snap",
    ".map",
    ".lock",
    ".pb.go",
    ".min.js",
    ".min.css",
    ".min.mjs",
];

/// Extension (lowercase) to highlighting language; the first match wins.
pub const LANGUAGES: [(&'static str, &'static str); 49] = [
    ("ts", "typescript"),
    ("tsx", "tsx"),
    ("mts", "typescript"),
    ("cts", "typescript"),
    ("js", "javascript"),
    ("jsx", "jsx"),
    ("mjs", "javascript"),
    ("cjs", "javascript"),
    ("py", "python"),
    ("rb", "ruby"),
    ("go", "go"),
    ("rs", "rust"),
    ("java", "java"),
    ("kt", "kotlin"),
    ("swift", "swift"),
    ("c", "c"),
    ("h", "c"),
    ("cc", "cpp"),
    ("cpp", "cpp"),
    ("hpp", "cpp"),
    ("cs", "csharp"),
    ("php", "php"),
    ("sh", "shell"),
    ("bash", "shell"),
    ("zsh", "shell"),
    ("fish", "shell"),
    ("sql", "sql"),
    ("css", "css"),
    ("scss", "scss"),
    ("less", "less"),
    ("html", "html"),
    ("vue", "vue"),
    ("svelte", "svelte"),
    ("json", "json"),
    ("jsonc", "json"),
    ("yml", "yaml"),
    ("yaml", "yaml"),
    ("toml", "toml"),
    ("ini", "ini"),
    ("xml", "xml"),
    ("md", "markdown"),
    ("mdx", "mdx"),
    ("rst", "rst"),
    ("graphql", "graphql"),
    ("gql", "graphql"),
    ("proto", "protobuf"),
    ("tf", "terraform"),
    ("lua", "lua"),
    ("vim", "vim"),
];

/// The file name: everything after the last `/`.
pub open spec fn basename_of(path: Seq<char>) -> Seq<char> {
    last_piece(path, '/')
}

pub open spec fn is_noise_name(name: Seq<char>) -> bool {
    exists|i: int| 0 <= i < 11 && NOISE_NAMES@[i]@ == name
}

pub open spec fn is_noise_dir(segment: Seq<char>) -> bool {
    exists|i: int| 0 <= i < 9 && NOISE_DIRS@[i]@ == segment
}

pub open spec fn has_noise_suffix(name: Seq<char>) -> bool {
    exists|i: int| 0 <= i < 7 && ends_with(name, NOISE_SUFFIXES@[i]@)
}

/// Some directory on the path (every segment but the last) is a noise
/// directory, so `lib/dist-helper.ts` and a file named `dist` stay source.
pub open spec fn under_noise_dir(path: Seq<char>) -> bool {
    let segments = split_on(path, '/');
    exists|i: int| 0 <= i < segments.len() - 1 && is_noise_dir(#[trigger] segments[i])
}

/// `name.generated.ext`: the next-to-last dot-separated piece is `generated`.
pub open spec fn is_generated_name(name: Seq<char>) -> bool {
    let pieces = split_on(name, '.');
    pieces.len() >= 2 && pieces[pieces.len() - 2] == "generated"@
}

/// Lockfiles, generated output and vendored trees.
pub open spec fn noise_path(path: Seq<char>) -> bool {
    let name = basename_of(path);
    is_noise_name(name) || under_noise_dir(path) || has_noise_suffix(name)
        || is_generated_name(name)
}

/// The language of the first table entry whose extension is `ext`.
pub open spec fn language_from(ext: Seq<char>, from: int) -> Option<Seq<char>>
    decreases 49 - from,
{
    if from < 0 || from >= 49 {
        None
    } else if LANGUAGES@[from].0@ == ext {
        Some(LANGUAGES@[from].1@)
    } else {
        language_from(ext, from + 1)
    }
}

/// Dockerfiles by name, otherwise the lowercased extension looked up in the
/// table; a name without a dot has no extension and no language.
pub open spec fn language_spec(path: Seq<char>) -> Option<Seq<char>> {
    let name = basename_of(path);
    if starts_with(ascii_lower_seq(name), "dockerfile"@) {
        Some("dockerfile"@)
    } else if !name.contains('.') {
        None
    } else {
        language_from(ascii_lower_seq(last_piece(name, '.')), 0)
    }
}

/// Snapshots, source maps, lockfiles, generated protobuf Go, and minified
/// JavaScript, CSS and ES-module bundles are noise wherever they sit: a path
/// whose file name ends with any of these seven suffixes is noise.
pub proof fn every_noise_suffix_marks_noise(path: Seq<char>)
    ensures
        ({
            let name = basename_of(path);
            ||| ends_with(name, ".snap"@)
            ||| ends_with(name, ".map"@)
            ||| ends_with(name, ".lock"@)
            ||| ends_with(name, ".pb.go"@)
            ||| ends_with(name, ".min.js"@)
            ||| ends_with(name, ".min.css"@)
            ||| ends_with(name, ".min.mjs"@)
        }) ==> noise_path(path),
{
    let name = basename_of(path);
    assert(NOISE_SUFFIXES@[0]@ == ".snap"@);
    assert(NOISE_SUFFIXES@[1]@ == ".map"@);
    assert(NOISE_SUFFIXES@[2]@ == ".lock"@);
    assert(NOISE_SUFFIXES@[3]@ == ".pb.go"@);
    assert(NOISE_SUFFIXES@[4]@ == ".min.js"@);
    assert(NOISE_SUFFIXES@[5]@ == ".min.css"@);
    assert(NOISE_SUFFIXES@[6]@ == ".min.mjs"@);
}

/// ASCII uppercasing of one character, as `char::to_ascii_uppercase`.
pub open spec fn ascii_upper(c: char) -> char {
    if 'a' <= c && c <= 'z' {
        ((c as u32) - 32) as char
    } else {
        c
    }
}

/// ASCII uppercasing of a whole string, as `str::to_ascii_uppercase`.
pub open spec fn ascii_upper_seq(s: Seq<char>) -> Seq<char> {
    s.map_values(|c: char| ascii_upper(c))
}

/// After a separator, the last piece is what follows it, when that holds
/// no separator.
proof fn lemma_last_piece_after(head: Seq<char>, tail: Seq<char>, sep: char)
    requires
        !tail.contains(sep),
    ensures
        last_piece(head + seq![sep] + tail, sep) == tail,
    decreases tail.len(),
{
    let s = head + seq![sep] + tail;
    if tail.len() == 0 {
        assert(s == head.push(sep));
        assert(s.drop_last() == head);
    } else {
        let shorter = tail.drop_last();
        assert(!shorter.contains(sep)) by {
            if shorter.contains(sep) {
                let i = choose|i: int| 0 <= i < shorter.len() && shorter[i] == sep;
                assert(tail[i] == sep);
            }
        }
        lemma_last_piece_after(head, shorter, sep);
        assert(s.drop_last() == head + seq![sep] + shorter);
        assert(s.last() == tail.last());
        assert(tail.last() != sep) by {
            assert(tail[tail.len() - 1] == tail.last());
        }
        lemma_split_nonempty(s.drop_last(), sep);
        assert(shorter.push(tail.last()) == tail);
    }
}

/// A string with no separator is its own last piece.
proof fn lemma_last_piece_whole(s: Seq<char>, sep: char)
    requires
        !s.contains(sep),
    ensures
        last_piece(s, sep) == s,
    decreases s.len(),
{
    if s.len() > 0 {
        let shorter = s.drop_last();
        assert(!shorter.contains(sep)) by {
            if shorter.contains(sep) {
                let i = choose|i: int| 0 <= i < shorter.len() && shorter[i] == sep;
                assert(s[i] == sep);
            }
        }
        lemma_last_piece_whole(shorter, sep);
        assert(s.last() != sep) by {
            assert(s[s.len() - 1] == s.last());
        }
        lemma_split_nonempty(shorter, sep);
        assert(shorter.push(s.last()) == s);
    }
}

/// Uppercasing leaves `.` and `/` alone and nothing else becomes one.
proof fn lemma_upper_keeps_punctuation(c: char)
    ensures
        ascii_upper(c) == '.' <==> c == '.',
        ascii_upper(c) == '/' <==> c == '/',
        ascii_lower(ascii_upper(c)) == ascii_lower(c),
{
}

/// The last piece of an uppercased string is the uppercased last piece.
proof fn lemma_upper_last_piece(s: Seq<char>, sep: char)
    requires
        sep == '.' || sep == '/',
    ensures
        last_piece(ascii_upper_seq(s), sep) == ascii_upper_seq(last_piece(s, sep)),
    decreases s.len(),
{
    let u = ascii_upper_seq(s);
    if s.len() == 0 {
        assert(u == Seq::<char>::empty());
        assert(ascii_upper_seq(Seq::<char>::empty()) == Seq::<char>::empty());
    } else {
        lemma_upper_last_piece(s.drop_last(), sep);
        assert(u.drop_last() == ascii_upper_seq(s.drop_last()));
        assert(u.last() == ascii_upper(s.last()));
        lemma_upper_keeps_punctuation(s.last());
        lemma_split_nonempty(s.drop_last(), sep);
        lemma_split_nonempty(u.drop_last(), sep);
        if s.last() != sep {
            assert(ascii_upper_seq(last_piece(s.drop_last(), sep).push(s.last()))
                == ascii_upper_seq(last_piece(s.drop_last(), sep)).push(ascii_upper(s.last())));
        } else {
            assert(ascii_upper_seq(Seq::<char>::empty()) == Seq::<char>::empty());
        }
    }
}

proof fn lemma_upper_contains(s: Seq<char>, c: char)
    requires
        c == '.' || c == '/',
    ensures
        ascii_upper_seq(s).contains(c) <==> s.contains(c),
{
    if s.contains(c) {
        let i = choose|i: int| 0 <= i < s.len() && s[i] == c;
        lemma_upper_keeps_punctuation(s[i]);
        assert(ascii_upper_seq(s)[i] == c);
    }
    if ascii_upper_seq(s).contains(c) {
        let i = choose|i: int| 0 <= i < ascii_upper_seq(s).len() && ascii_upper_seq(s)[i] == c;
        lemma_upper_keeps_punctuation(s[i]);
    }
}

proof fn lemma_lower_of_upper(s: Seq<char>)
    ensures
        ascii_lower_seq(ascii_upper_seq(s)) == ascii_lower_seq(s),
{
    assert forall|i: int| 0 <= i < s.len() implies ascii_lower_seq(ascii_upper_seq(s))[i] == ascii_lower_seq(s)[i] by {
        lemma_upper_keeps_punctuation(s[i]);
    }
    assert(ascii_lower_seq(ascii_upper_seq(s)) =~= ascii_lower_seq(s));
}

/// Only the file name decides the language, and ASCII case does not matter:
/// a name gives the same language under any directory, and so does its
/// uppercased spelling.
pub proof fn language_looks_only_at_the_file_name(dir: Seq<char>, name: Seq<char>)
    requires
        !name.contains('/'),
    ensures
        language_spec(dir + seq!['/'] + name) == language_spec(name),
        language_spec(ascii_upper_seq(name)) == language_spec(name),
        language_spec(dir + seq!['/'] + ascii_upper_seq(name)) == language_spec(name),
{
    lemma_last_piece_after(dir, name, '/');
    lemma_last_piece_whole(name, '/');
    let upper = ascii_upper_seq(name);
    lemma_upper_contains(name, '/');
    lemma_upper_contains(name, '.');
    lemma_last_piece_after(dir, upper, '/');
    lemma_last_piece_whole(upper, '/');
    lemma_lower_of_upper(name);
    lemma_upper_last_piece(name, '.');
    lemma_lower_of_upper(last_piece(name, '.'));
}

/// The last `sep`-separated piece of `v`.
fn last_piece_of(v: &Vec<char>, sep: char) -> (r: Vec<char>)
    ensures
        r@ == last_piece(v@, sep),
{
    proof { lemma_split_nonempty(v@, sep); }
    let mut pieces = split_chars(v, sep);
    let last = pieces.pop().unwrap();
    last
}

/// The file name of a `/`-separated path.
pub fn basename(path: &str) -> (name: Vec<char>)
    ensures
        name@ == basename_of(path@),
{
    let chars = chars_of(path);
    last_piece_of(&chars, '/')
}

fn is_noise_dir_exec(segment: &Vec<char>) -> (r: bool)
    ensures
        r == is_noise_dir(segment@),
{
    let mut i: usize = 0;
    while i < 9
        invariant
            i <= 9,
            forall|j: int| 0 <= j < i ==> NOISE_DIRS@[j]@ != segment@,
        decreases 9 - i,
    {
        if spells(segment, NOISE_DIRS[i]) {
            return true;
        }
        i += 1;
    }
    false
}

/// Whether a changed path is noise: a lockfile, something under a generated or
/// vendored directory, a snapshot, source map or minified bundle, or a
/// `*.generated.*` file.
pub fn is_noise(path: &str) -> (r: bool)
    ensures
        r == noise_path(path@),
{
    let chars = chars_of(path);
    let name = last_piece_of(&chars, '/');
    let ghost name_s = basename_of(path@);
    let mut i: usize = 0;
    while i < 11
        invariant
            i <= 11,
            name@ == name_s,
            name_s == basename_of(path@),
            forall|j: int| 0 <= j < i ==> NOISE_NAMES@[j]@ != name_s,
        decreases 11 - i,
    {
        if spells(&name, NOISE_NAMES[i]) {
            assert(NOISE_NAMES@[i as int]@ == name_s);
            return true;
        }
        i += 1;
    }
    let segments = split_chars(&chars, '/');
    proof { lemma_split_nonempty(path@, '/'); }
    let mut k: usize = 0;
    while k < segments.len() - 1
        invariant
            k < segments.len(),
            segments@.len() == split_on(path@, '/').len(),
            forall|m: int| 0 <= m < segments@.len() ==> #[trigger] segments@[m]@ == split_on(path@, '/')[m],
            forall|m: int| 0 <= m < k ==> !is_noise_dir(#[trigger] split_on(path@, '/')[m]),
        decreases segments.len() - k,
    {
        if is_noise_dir_exec(&segments[k]) {
            assert(is_noise_dir(split_on(path@, '/')[k as int]));
            return true;
        }
        k += 1;
    }
    assert(!under_noise_dir(path@));
    let mut s: usize = 0;
    while s < 7
        invariant
            s <= 7,
            name@ == name_s,
            name_s == basename_of(path@),
            forall|j: int| 0 <= j < s ==> !ends_with(name_s, NOISE_SUFFIXES@[j]@),
        decreases 7 - s,
    {
        if ends_with_str(&name, NOISE_SUFFIXES[s]) {
            assert(ends_with(name_s, NOISE_SUFFIXES@[s as int]@));
            return true;
        }
        s += 1;
    }
    let pieces = split_chars(&name, '.');
    if pieces.len() >= 2 {
        spells(&pieces[pieces.len() - 2], "generated")
    } else {
        false
    }
}

/// The highlighting language for a path, if it has one.
pub fn language_of(path: &str) -> (r: Option<&'static str>)
    ensures
        match r {
            Some(language) => language_spec(path@) == Some(language@),
            None => language_spec(path@) is None,
        },
{
    let chars = chars_of(path);
    let name = last_piece_of(&chars, '/');
    let lowered = lower_chars(&name);
    if starts_with_str(&lowered, "dockerfile") {
        return Some("dockerfile");
    }
    if !has_char(&name, '.') {
        return None;
    }
    let extension = lower_chars(&last_piece_of(&name, '.'));
    assert(language_spec(path@) == language_from(extension@, 0));
    let mut i: usize = 0;
    while i < 49
        invariant
            i <= 49,
            language_spec(path@) == language_from(extension@, i as int),
        decreases 49 - i,
    {
        if spells(&extension, LANGUAGES[i].0) {
            assert(LANGUAGES@[i as int] == LANGUAGES[i as int]);
            return Some(LANGUAGES[i].1);
        }
        i += 1;
    }
    None
}

} // verus!
