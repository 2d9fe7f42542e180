//! Where the browser assets come from: compiled into the binary, or, when
//! `DIFFPANE_UI_DIR` names a directory, read from it (for iterating on the UI
//! without a rebuild).

use vstd::prelude::*;

use crate::text::{chars_of, string_of, spells};

verus! {

broadcast use vstd::string::group_string_axioms;

/// Every file the page can ask for. The UI directory also holds the browser
/// suite, which is no asset, so the set is named rather than globbed.
pub const EMBEDDED: [&'static str; 8] = [
    "index.html",
    "app.css",
    "app.js",
    "fixture.json",
    "favicon.ico",
    "favicon.svg",
    "logo.png",
    "apple-touch-icon.png",
];

/// Where the page, the favicon and the assets are read from.
#[derive(Debug, PartialEq, Eq)]
pub enum Assets {
    Embedded,
    Dir(String),
}

/// Where one asset is to be read from.
#[derive(Debug, PartialEq, Eq)]
pub enum Source {
    /// Nowhere: the caller's 404.
    Missing,
    /// The compiled-in file at this position of `EMBEDDED`.
    Embedded(usize),
    /// The file `name` under directory `dir`, if it stays inside it.
    UnderDir { dir: String, name: String },
}

impl Assets {
    /// A directory override counts only when it says something.
    pub fn from_override(dir: Option<&str>) -> (assets: Assets)
        ensures
            match dir {
                Some(d) => if d@.len() > 0 {
                    assets matches Assets::Dir(path) && path@ == d@
                } else {
                    assets == Assets::Embedded
                },
                None => assets == Assets::Embedded,
            },
    {
        match dir {
            Some(d) => {
                let chars = chars_of(d);
                if chars.len() > 0 {
                    Assets::Dir(string_of(&chars))
                } else {
                    Assets::Embedded
                }
            },
            None => Assets::Embedded,
        }
    }

    /// Where `name` is read from. An empty name is missing; a compiled-in
    /// set serves only the files it names; a directory is asked for the
    /// name, which must not escape it.
    pub fn locate(&self, name: &str) -> (source: Source)
        ensures
            name@.len() == 0 ==> source == Source::Missing,
            name@.len() > 0 ==> match self {
                Assets::Embedded => match source {
                    Source::Embedded(i) => 0 <= i < 8 && EMBEDDED[i as int]@ == name@,
                    Source::Missing => forall|i: int| 0 <= i < 8 ==> #[trigger] EMBEDDED[i]@ != name@,
                    _ => false,
                },
                Assets::Dir(dir) => source matches Source::UnderDir { dir: d, name: n } && d@ == dir@ && n@ == name@,
            },
    {
        let wanted = chars_of(name);
        if wanted.len() == 0 {
            return Source::Missing;
        }
        match self {
            Assets::Embedded => {
                let mut k: usize = 0;
                while k < 8
                    invariant
                        k <= 8,
                        wanted@ == name@,
                        name@.len() > 0,
                        *self == Assets::Embedded,
                        forall|i: int| 0 <= i < k ==> #[trigger] EMBEDDED[i]@ != name@,
                    decreases 8 - k,
                {
                    if spells(&wanted, EMBEDDED[k]) {
                        return Source::Embedded(k);
                    }
                    k += 1;
                }
                Source::Missing
            },
            Assets::Dir(dir) => Source::UnderDir {
                dir: string_of(&chars_of(dir.as_str())),
                name: string_of(&wanted),
            },
        }
    }
}

} // verus!
