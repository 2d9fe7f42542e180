//! Argument parsing. `USAGE` is user-facing text that the skill quotes, and
//! `--help` output is part of the CLI surface, so it is spelled out here.

use vstd::prelude::*;

use crate::model::{opt_text, Scope};
use crate::text::{sub_chars, first_index, chars_of, same_chars, spells, starts_with, starts_with_str, push_str, push_chars, string_of, split_on, split_chars, lemma_split_nonempty, joined, join_lines, views};

verus! {

broadcast use vstd::string::group_string_axioms;

pub const DEFAULT_PORT: u16 = 7777;

pub const DEFAULT_TIMEOUT_SECONDS: u64 = 3600;

pub const USAGE: &'static str = "diffpane — review a git diff in your browser, then hand the feedback back.

Usage
  diffpane [options] [-- <pathspec>...]

Scope (default: current branch vs its base)
  --base <ref>       base ref for the branch diff
  --working          uncommitted changes
  --staged           staged changes
  --range <a..b>     an explicit range
  --commit <sha>     a single commit

Options
  --title <text>     human title for the review
  --review <file>    narrative JSON (chapters + descriptions) to render
  --out <file>       write the markdown report to a file
  --json             print machine-readable feedback to stdout
  --port <n>         preferred port (default 7777, walks forward if taken)
  --no-open          do not open a browser
  --timeout <sec>    give up waiting after N seconds (default 3600, 0 = never)
  -h, --help         show this
  -v, --version      show version

Agent setup
  --install-skill    install the agent skill, then exit
  --skill-dir <dir>  where to install it: the agent's skills directory

Exit codes
  0  approved (or nothing to review)   2  abandoned / timed out
  1  changes requested                 3  error
";

#[derive(Debug, PartialEq, Eq)]
pub struct Options {
    pub scope: Scope,
    pub base: Option<String>,
    pub range: Option<String>,
    pub commit: Option<String>,
    pub paths: Vec<String>,
    pub title: Option<String>,
    pub review_file: Option<String>,
    pub out_file: Option<String>,
    pub port: u16,
    pub timeout_seconds: u64,
    pub as_json: bool,
    pub should_open: bool,
}

/// Options as text.
pub struct OptionsView {
    pub scope: Scope,
    pub base: Option<Seq<char>>,
    pub range: Option<Seq<char>>,
    pub commit: Option<Seq<char>>,
    pub paths: Seq<Seq<char>>,
    pub title: Option<Seq<char>>,
    pub review_file: Option<Seq<char>>,
    pub out_file: Option<Seq<char>>,
    pub port: u16,
    pub timeout_seconds: u64,
    pub as_json: bool,
    pub should_open: bool,
}

pub open spec fn strings_view(v: Seq<String>) -> Seq<Seq<char>> {
    Seq::new(v.len(), |i: int| v[i]@)
}

impl View for Options {
    type V = OptionsView;

    open spec fn view(&self) -> OptionsView {
        OptionsView {
            scope: self.scope,
            base: opt_text(self.base),
            range: opt_text(self.range),
            commit: opt_text(self.commit),
            paths: strings_view(self.paths@),
            title: opt_text(self.title),
            review_file: opt_text(self.review_file),
            out_file: opt_text(self.out_file),
            port: self.port,
            timeout_seconds: self.timeout_seconds,
            as_json: self.as_json,
            should_open: self.should_open,
        }
    }
}

/// The branch scope, default port and timeout, and nothing else set.
pub open spec fn default_options() -> OptionsView {
    OptionsView {
        scope: Scope::Branch,
        base: None,
        range: None,
        commit: None,
        paths: Seq::empty(),
        title: None,
        review_file: None,
        out_file: None,
        port: DEFAULT_PORT,
        timeout_seconds: DEFAULT_TIMEOUT_SECONDS,
        as_json: false,
        should_open: true,
    }
}

impl Default for Options {
    fn default() -> (options: Self)
        ensures
            options@ == default_options(),
    {
        let options = Options {
            scope: Scope::Branch,
            base: None,
            range: None,
            commit: None,
            paths: Vec::new(),
            title: None,
            review_file: None,
            out_file: None,
            port: DEFAULT_PORT,
            timeout_seconds: DEFAULT_TIMEOUT_SECONDS,
            as_json: false,
            should_open: true,
        };
        assert(options@.paths =~= Seq::<Seq<char>>::empty());
        options
    }
}

#[derive(Debug, PartialEq, Eq)]
pub enum Parsed {
    Options(Box<Options>),
    InstallSkill { skill_dir: Option<String> },
    Help,
    Version,
}

pub open spec fn is_digit(c: char) -> bool {
    '0' <= c && c <= '9'
}

pub open spec fn all_digits(s: Seq<char>) -> bool {
    forall|i: int| 0 <= i < s.len() ==> is_digit(#[trigger] s[i])
}

pub open spec fn all_zeros(s: Seq<char>) -> bool {
    forall|i: int| 0 <= i < s.len() ==> #[trigger] s[i] == '0'
}

/// The value of a string of decimal digits.
pub open spec fn digits_value(s: Seq<char>) -> nat
    decreases s.len(),
{
    if s.len() == 0 {
        0
    } else {
        digits_value(s.drop_last()) * 10 + ((s.last() as u32) - 48) as nat
    }
}

/// Where the first exponent marker (`e` or `E`) is, at or after `from`.
pub open spec fn exponent_at(s: Seq<char>, from: int) -> Option<int>
    decreases s.len() - from,
{
    if from < 0 || from >= s.len() {
        None
    } else if s[from] == 'e' || s[from] == 'E' {
        Some(from)
    } else {
        exponent_at(s, from + 1)
    }
}

/// An exponent: an optional sign, then at least one digit.
pub open spec fn exponent_value(e: Seq<char>) -> Option<int> {
    let signed = e.len() > 0 && (e[0] == '+' || e[0] == '-');
    let digits = if signed { e.drop_first() } else { e };
    if digits.len() == 0 || !all_digits(digits) {
        None
    } else if signed && e[0] == '-' {
        Some(-(digits_value(digits) as int))
    } else {
        Some(digits_value(digits) as int)
    }
}

pub open spec fn pow10(k: nat) -> nat
    decreases k,
{
    if k == 0 { 1 } else { 10 * pow10((k - 1) as nat) }
}

/// The whole part of the number `digits` spell with the decimal point after
/// the first `point` of them (zeros filling in past their end).
pub open spec fn whole_part(digits: Seq<char>, point: int) -> nat {
    if point <= 0 {
        0
    } else if point >= digits.len() {
        digits_value(digits) * pow10((point - digits.len()) as nat)
    } else {
        digits_value(digits.take(point))
    }
}

/// A non-negative number, `[+|-]digits[.digits][(e|E)[+|-]digits]` with at
/// least one digit before the exponent, read exactly as a decimal and cut to
/// its whole part; a negative sign is allowed only on zero.
pub open spec fn number_reading(s: Seq<char>) -> Option<nat> {
    let signed = s.len() > 0 && (s[0] == '+' || s[0] == '-');
    let negative = s.len() > 0 && s[0] == '-';
    let body = if signed { s.drop_first() } else { s };
    let (mantissa, exponent) = match exponent_at(body, 0) {
        Some(i) => (body.take(i), exponent_value(body.skip(i + 1))),
        None => (body, Some(0int)),
    };
    let pieces = split_on(mantissa, '.');
    let whole = pieces[0];
    let fraction = if pieces.len() == 2 { pieces[1] } else { Seq::<char>::empty() };
    if pieces.len() > 2 || !all_digits(whole) || !all_digits(fraction) || whole.len() + fraction.len() == 0
        || exponent is None {
        None
    } else if negative && !(all_zeros(whole) && all_zeros(fraction)) {
        None
    } else {
        Some(whole_part(whole + fraction, whole.len() + exponent.unwrap()))
    }
}

/// The reading, saturated to `u64`.
pub open spec fn saturated(v: nat) -> u64 {
    if v > u64::MAX { u64::MAX } else { v as u64 }
}

fn all_digits_exec(v: &Vec<char>) -> (r: bool)
    ensures
        r == all_digits(v@),
{
    let mut k: usize = 0;
    while k < v.len()
        invariant
            k <= v@.len(),
            forall|i: int| 0 <= i < k ==> is_digit(#[trigger] v@[i]),
        decreases v@.len() - k,
    {
        if !('0' <= v[k] && v[k] <= '9') {
            return false;
        }
        k += 1;
    }
    true
}

fn all_zeros_exec(v: &Vec<char>) -> (r: bool)
    ensures
        r == all_zeros(v@),
{
    let mut k: usize = 0;
    while k < v.len()
        invariant
            k <= v@.len(),
            forall|i: int| 0 <= i < k ==> #[trigger] v@[i] == '0',
        decreases v@.len() - k,
    {
        if v[k] != '0' {
            return false;
        }
        k += 1;
    }
    true
}

proof fn lemma_digits_value_step(s: Seq<char>, d: char)
    requires
        is_digit(d),
    ensures
        digits_value(s.push(d)) == digits_value(s) * 10 + ((d as u32) - 48) as nat,
        digits_value(s.push(d)) >= digits_value(s),
{
    assert(s.push(d).drop_last() == s);
}

/// The value of a digit string, saturated to `u64`.
fn digits_saturated(v: &Vec<char>) -> (r: u64)
    requires
        all_digits(v@),
    ensures
        r == saturated(digits_value(v@)),
{
    let mut acc: u64 = 0;
    let mut over = false;
    let mut k: usize = 0;
    while k < v.len()
        invariant
            k <= v@.len(),
            all_digits(v@),
            over == (digits_value(v@.take(k as int)) > u64::MAX),
            !over ==> acc == digits_value(v@.take(k as int)),
        decreases v@.len() - k,
    {
        let c = v[k];
        assert(is_digit(v@[k as int]));
        let d = (c as u32 - 48) as u64;
        proof {
            assert(v@.take(k + 1) == v@.take(k as int).push(c));
            lemma_digits_value_step(v@.take(k as int), c);
        }
        if !over {
            if acc > (u64::MAX - d) / 10 {
                assert(acc * 10 + d > u64::MAX) by (nonlinear_arith)
                    requires
                        acc > (u64::MAX - d) / 10,
                        d <= 9,
                ;
                over = true;
            } else {
                assert(acc * 10 + d <= u64::MAX) by (nonlinear_arith)
                    requires
                        acc <= (u64::MAX - d) / 10,
                        d <= 9,
                ;
                acc = acc * 10 + d;
            }
        }
        k += 1;
    }
    assert(v@.take(v@.len() as int) == v@);
    if over { u64::MAX } else { acc }
}

/// Exponents are read exactly up to this magnitude; any larger one moves the
/// point past every digit a string in memory can hold, in either direction.
pub const EXPONENT_CAP: u128 = 1180591620717411303424;

pub open spec fn capped(v: nat) -> nat {
    if v > EXPONENT_CAP { EXPONENT_CAP as nat } else { v }
}

/// The value of a digit string, capped at `EXPONENT_CAP`.
fn digits_capped(v: &Vec<char>) -> (r: u128)
    requires
        all_digits(v@),
    ensures
        r == capped(digits_value(v@)),
{
    let mut acc: u128 = 0;
    let mut k: usize = 0;
    while k < v.len()
        invariant
            k <= v@.len(),
            all_digits(v@),
            acc == capped(digits_value(v@.take(k as int))),
        decreases v@.len() - k,
    {
        let c = v[k];
        assert(is_digit(v@[k as int]));
        let d = (c as u32 - 48) as u128;
        proof {
            assert(v@.take(k + 1) == v@.take(k as int).push(c));
            lemma_digits_value_step(v@.take(k as int), c);
        }
        if acc < EXPONENT_CAP {
            let next = acc * 10 + d;
            acc = if next > EXPONENT_CAP { EXPONENT_CAP } else { next };
        }
        k += 1;
    }
    assert(v@.take(v@.len() as int) == v@);
    acc
}

proof fn lemma_pow10_grows(a: nat, b: nat)
    requires
        a <= b,
    ensures
        1 <= pow10(a) <= pow10(b),
    decreases b,
{
    if b > a {
        lemma_pow10_grows(a, (b - 1) as nat);
    } else if a > 0 {
        lemma_pow10_grows((a - 1) as nat, (a - 1) as nat);
    }
}

/// Ten to the twentieth is past `u64`, so a non-zero number shifted twenty
/// or more places saturates.
proof fn lemma_far_shift_saturates(dv: nat, k: nat)
    requires
        dv >= 1,
        k >= 20,
    ensures
        saturated(dv * pow10(k)) == u64::MAX,
{
    reveal_with_fuel(pow10, 21);
    assert(pow10(20) == 100000000000000000000nat);
    lemma_pow10_grows(20, k);
    assert(dv * pow10(k) >= pow10(k)) by (nonlinear_arith)
        requires
            dv >= 1,
            pow10(k) >= 1,
    ;
}

/// The whole part of a shifted digit string, saturated to `u64`.
fn whole_part_saturated(digits: &Vec<char>, point: i128) -> (r: u64)
    requires
        all_digits(digits@),
    ensures
        r == saturated(whole_part(digits@, point as int)),
{
    let n = digits.len();
    if point <= 0 {
        return 0;
    }
    if point < n as i128 {
        let head = sub_chars(digits, 0, point as usize);
        assert(head@ =~= digits@.take(point as int));
        return digits_saturated(&head);
    }
    let ghost dv = digits_value(digits@);
    let base = digits_saturated(digits);
    if base == 0 {
        assert(dv == 0);
        assert(dv * pow10((point - n) as nat) == 0) by (nonlinear_arith)
            requires
                dv == 0,
        ;
        return 0;
    }
    let ghost total: nat = (point - n) as nat;
    let mut k: i128 = point - n as i128;
    let mut acc: u64 = base;
    proof {
        assert(pow10(0) == 1);
        assert(dv * pow10(0) == dv) by (nonlinear_arith)
            requires
                pow10(0) == 1,
        ;
    }
    while k > 0 && acc < u64::MAX
        invariant
            0 <= k <= total,
            dv >= 1,
            acc == saturated(dv * pow10((total - k) as nat)),
        decreases k,
    {
        let ghost j: nat = (total - k) as nat;
        proof {
            assert(pow10(j + 1) == 10 * pow10(j));
            assert(dv * pow10(j + 1) == 10 * (dv * pow10(j))) by (nonlinear_arith)
                requires
                    pow10(j + 1) == 10 * pow10(j),
            ;
        }
        if acc > 1844674407370955161 {
            acc = u64::MAX;
        } else {
            acc = acc * 10;
        }
        k -= 1;
    }
    proof {
        if k > 0 {
            let j: nat = (total - k) as nat;
            lemma_pow10_grows(j, total);
            assert(dv * pow10(total) >= dv * pow10(j)) by (nonlinear_arith)
                requires
                    pow10(total) >= pow10(j),
                    dv >= 1,
            ;
        }
    }
    acc
}

/// An exponent's sign and its magnitude, capped: `None` when it is no
/// exponent.
fn exponent_part(e: &Vec<char>) -> (r: Option<(bool, u128)>)
    ensures
        match exponent_value(e@) {
            None => r is None,
            Some(v) => r matches Some((negative, magnitude)) && (negative ==> v <= 0) && (!negative ==> v >= 0)
                && magnitude == capped(if v < 0 { (-v) as nat } else { v as nat }),
        },
{
    let e_signed = e.len() > 0 && (e[0] == '+' || e[0] == '-');
    let digits = sub_chars(e, if e_signed { 1 } else { 0 }, e.len());
    assert(e_signed ==> digits@ =~= e@.drop_first());
    assert(!e_signed ==> digits@ =~= e@);
    if digits.len() == 0 || !all_digits_exec(&digits) {
        return None;
    }
    Some((e_signed && e[0] == '-', digits_capped(&digits)))
}

/// The digits of the mantissa: the whole part, then the fraction.
fn mantissa_digits(whole: &Vec<char>, fraction: &Vec<char>) -> (digits: Vec<char>)
    requires
        all_digits(whole@),
        all_digits(fraction@),
    ensures
        digits@ == whole@ + fraction@,
        all_digits(digits@),
{
    let mut digits: Vec<char> = sub_chars(whole, 0, whole.len());
    assert(digits@ =~= whole@);
    let mut k: usize = 0;
    while k < fraction.len()
        invariant
            k <= fraction@.len(),
            digits@ == whole@ + fraction@.take(k as int),
        decreases fraction@.len() - k,
    {
        digits.push(fraction[k]);
        k += 1;
        assert(digits@ =~= whole@ + fraction@.take(k as int));
    }
    assert(fraction@.take(fraction@.len() as int) =~= fraction@);
    assert forall|x: int| 0 <= x < digits@.len() implies is_digit(#[trigger] digits@[x]) by {
        if x < whole@.len() {
            assert(digits@[x] == whole@[x]);
        } else {
            assert(digits@[x] == fraction@[x - whole@.len()]);
        }
    }
    digits
}

/// A capped exponent puts the point where the true one does, or so far out
/// that the whole part is the same once saturated.
proof fn lemma_capped_point(digits: Seq<char>, w: int, e: int, negative: bool, magnitude: u128)
    requires
        0 <= w <= digits.len() <= usize::MAX,
        negative ==> e <= 0,
        !negative ==> e >= 0,
        magnitude == capped(if e < 0 { (-e) as nat } else { e as nat }),
    ensures
        saturated(whole_part(digits, if negative { w - magnitude } else { w + magnitude }))
            == saturated(whole_part(digits, w + e)),
{
    if magnitude == EXPONENT_CAP && !negative {
        let dv = digits_value(digits);
        let far: nat = (w + magnitude - digits.len()) as nat;
        let farther: nat = (w + e - digits.len()) as nat;
        if dv == 0 {
            assert(dv * pow10(far) == 0) by (nonlinear_arith) requires dv == 0;
            assert(dv * pow10(farther) == 0) by (nonlinear_arith) requires dv == 0;
        } else {
            lemma_far_shift_saturates(dv, far);
            lemma_far_shift_saturates(dv, farther);
        }
    }
}

/// Reads a non-negative number, cut to its whole part and saturated to
/// `u64`; `None` for anything that is not one.
pub fn read_number(value: &str) -> (r: Option<u64>)
    ensures
        match number_reading(value@) {
            Some(v) => r == Some(saturated(v)),
            None => r is None,
        },
{
    let chars = chars_of(value);
    let n = chars.len();
    let signed = n > 0 && (chars[0] == '+' || chars[0] == '-');
    let negative = n > 0 && chars[0] == '-';
    let body = sub_chars(&chars, if signed { 1 } else { 0 }, n);
    assert(signed ==> body@ =~= value@.drop_first());
    assert(!signed ==> body@ =~= value@);
    let mut i: usize = 0;
    while i < body.len() && body[i] != 'e' && body[i] != 'E'
        invariant
            i <= body@.len(),
            exponent_at(body@, 0) == exponent_at(body@, i as int),
        decreases body@.len() - i,
    {
        i += 1;
    }
    let mantissa = sub_chars(&body, 0, i);
    let (exponent_negative, magnitude) = if i < body.len() {
        assert(mantissa@ =~= body@.take(i as int));
        let e = sub_chars(&body, i + 1, body.len());
        assert(e@ =~= body@.skip(i + 1));
        match exponent_part(&e) {
            Some(part) => part,
            None => {
                return None;
            },
        }
    } else {
        assert(mantissa@ =~= body@);
        (false, 0u128)
    };
    let pieces = split_chars(&mantissa, '.');
    proof { lemma_split_nonempty(mantissa@, '.'); }
    if pieces.len() > 2 {
        return None;
    }
    let empty: Vec<char> = Vec::new();
    let fraction = if pieces.len() == 2 { &pieces[1] } else { &empty };
    let whole = &pieces[0];
    if !all_digits_exec(whole) || !all_digits_exec(fraction) || (whole.len() == 0 && fraction.len() == 0) {
        return None;
    }
    if negative && !(all_zeros_exec(whole) && all_zeros_exec(fraction)) {
        return None;
    }
    let digits = mantissa_digits(whole, fraction);
    let wl = whole.len() as i128;
    let point: i128 = if exponent_negative { wl - magnitude as i128 } else { wl + magnitude as i128 };
    let r = whole_part_saturated(&digits, point);
    proof {
        let e_true: int = number_exponent(value@).unwrap();
        lemma_capped_point(digits@, whole@.len() as int, e_true, exponent_negative, magnitude);
    }
    Some(r)
}

/// The exponent a number string carries, 0 when it has none.
pub open spec fn number_exponent(s: Seq<char>) -> Option<int> {
    let signed = s.len() > 0 && (s[0] == '+' || s[0] == '-');
    let body = if signed { s.drop_first() } else { s };
    match exponent_at(body, 0) {
        Some(i) => exponent_value(body.skip(i + 1)),
        None => Some(0int),
    }
}

/// `--<label>`'s value as a number, or the error naming the flag.
pub fn positive_int(value: &str, label: &str) -> (r: Result<u64, String>)
    ensures
        match number_reading(value@) {
            Some(v) => r == Ok::<u64, String>(saturated(v)),
            None => r matches Err(message) && message@ == "--"@ + label@ + " must be a number >= 0"@,
        },
{
    match read_number(value) {
        Some(n) => Ok(n),
        None => {
            let mut message: Vec<char> = Vec::new();
            push_str(&mut message, "--");
            push_str(&mut message, label);
            push_str(&mut message, " must be a number >= 0");
            Err(string_of(&message))
        },
    }
}

/// Where the command line has got to: options set so far, which scope flags
/// were given, the install request, the unread number texts, and the
/// positional arguments.
pub struct ScanState {
    pub options: OptionsView,
    pub working: bool,
    pub staged: bool,
    pub range: bool,
    pub commit: bool,
    pub install_skill: bool,
    pub skill_dir: Option<Seq<char>>,
    pub port: Option<Seq<char>>,
    pub timeout: Option<Seq<char>>,
    pub rest: Seq<Seq<char>>,
}

pub enum ScanEnd {
    Help,
    Version,
    Failed(Seq<char>),
    Finished(ScanState),
}

pub open spec fn start_state() -> ScanState {
    ScanState {
        options: default_options(),
        working: false,
        staged: false,
        range: false,
        commit: false,
        install_skill: false,
        skill_dir: None,
        port: None,
        timeout: None,
        rest: Seq::empty(),
    }
}

/// `--flag=value` splits at its first `=` into the flag and an inline value;
/// anything else (a bare `--` included) is taken whole.
pub open spec fn flag_of(arg: Seq<char>) -> (Seq<char>, Option<Seq<char>>) {
    match first_index(arg, '=', 0) {
        Some(i) => if i > 2 && starts_with(arg.take(i), "--"@) {
            (arg.take(i), Some(arg.skip(i + 1)))
        } else {
            (arg, None)
        },
        None => (arg, None),
    }
}

pub open spec fn takes_value(flag: Seq<char>) -> bool {
    ||| flag == "--skill-dir"@
    ||| flag == "--base"@
    ||| flag == "--title"@
    ||| flag == "--review"@
    ||| flag == "--out"@
    ||| flag == "--port"@
    ||| flag == "--timeout"@
    ||| flag == "--range"@
    ||| flag == "--commit"@
}

/// The effect of a flag that takes a value.
pub open spec fn with_value(st: ScanState, flag: Seq<char>, value: Seq<char>) -> ScanState {
    if flag == "--skill-dir"@ {
        ScanState { skill_dir: Some(value), ..st }
    } else if flag == "--base"@ {
        ScanState { options: OptionsView { base: Some(value), ..st.options }, ..st }
    } else if flag == "--title"@ {
        ScanState { options: OptionsView { title: Some(value), ..st.options }, ..st }
    } else if flag == "--review"@ {
        ScanState { options: OptionsView { review_file: Some(value), ..st.options }, ..st }
    } else if flag == "--out"@ {
        ScanState { options: OptionsView { out_file: Some(value), ..st.options }, ..st }
    } else if flag == "--port"@ {
        ScanState { port: Some(value), ..st }
    } else if flag == "--timeout"@ {
        ScanState { timeout: Some(value), ..st }
    } else if flag == "--range"@ {
        ScanState { range: true, options: OptionsView { range: Some(value), ..st.options }, ..st }
    } else {
        ScanState { commit: true, options: OptionsView { commit: Some(value), ..st.options }, ..st }
    }
}

/// The effect of a flag that takes no value.
pub open spec fn with_switch(st: ScanState, flag: Seq<char>) -> ScanState {
    if flag == "--install-skill"@ {
        ScanState { install_skill: true, ..st }
    } else if flag == "--working"@ {
        ScanState { working: true, ..st }
    } else if flag == "--staged"@ {
        ScanState { staged: true, ..st }
    } else if flag == "--json"@ {
        ScanState { options: OptionsView { as_json: true, ..st.options }, ..st }
    } else {
        ScanState { options: OptionsView { should_open: false, ..st.options }, ..st }
    }
}

pub open spec fn is_switch(flag: Seq<char>) -> bool {
    ||| flag == "--install-skill"@
    ||| flag == "--working"@
    ||| flag == "--staged"@
    ||| flag == "--json"@
    ||| flag == "--no-open"@
}

/// Reads the arguments from `i` on: help and version win at once, a flag
/// missing its value or an unknown flag fails, `--` takes everything after
/// it as a pathspec, and other arguments are pathspecs too.
pub open spec fn scan(args: Seq<Seq<char>>, i: int, st: ScanState) -> ScanEnd
    decreases args.len() - i,
{
    if i < 0 || i >= args.len() {
        ScanEnd::Finished(st)
    } else {
        let (flag, inline) = flag_of(args[i]);
        if flag == "-h"@ || flag == "--help"@ {
            ScanEnd::Help
        } else if flag == "-v"@ || flag == "--version"@ {
            ScanEnd::Version
        } else if is_switch(flag) {
            scan(args, i + 1, with_switch(st, flag))
        } else if takes_value(flag) {
            match inline {
                Some(value) => scan(args, i + 1, with_value(st, flag, value)),
                None => if i + 1 < args.len() {
                    scan(args, i + 2, with_value(st, flag, args[i + 1]))
                } else {
                    ScanEnd::Failed(flag + " needs a value"@)
                },
            }
        } else if flag == "--"@ {
            ScanEnd::Finished(ScanState { rest: st.rest + args.skip(i + 1), ..st })
        } else if flag.len() > 0 && flag[0] == '-' {
            ScanEnd::Failed("unknown option: "@ + flag)
        } else {
            scan(args, i + 1, ScanState { rest: st.rest.push(flag), ..st })
        }
    }
}

pub enum ParsedView {
    Options(OptionsView),
    InstallSkill(Option<Seq<char>>),
    Help,
    Version,
}

impl View for Parsed {
    type V = ParsedView;

    open spec fn view(&self) -> ParsedView {
        match self {
            Parsed::Options(options) => ParsedView::Options((**options)@),
            Parsed::InstallSkill { skill_dir } => ParsedView::InstallSkill(opt_text(*skill_dir)),
            Parsed::Help => ParsedView::Help,
            Parsed::Version => ParsedView::Version,
        }
    }
}

/// The scope flags given, in a fixed order, for the error that names them.
pub open spec fn scope_names(st: ScanState) -> Seq<Seq<char>> {
    let a = if st.working { seq!["working"@] } else { Seq::<Seq<char>>::empty() };
    let b = if st.staged { a.push("staged"@) } else { a };
    let c = if st.range { b.push("range"@) } else { b };
    if st.commit { c.push("commit"@) } else { c }
}

pub open spec fn dashed(names: Seq<Seq<char>>) -> Seq<Seq<char>> {
    Seq::new(names.len(), |i: int| "--"@ + names[i])
}

/// The scope one flag selected; branch when none did.
pub open spec fn scope_of(st: ScanState) -> Scope {
    if st.range {
        Scope::Range
    } else if st.commit {
        Scope::Commit
    } else if st.working {
        Scope::Working
    } else if st.staged {
        Scope::Staged
    } else {
        Scope::Branch
    }
}

pub open spec fn port_of(text: Option<Seq<char>>) -> Result<u16, Seq<char>> {
    match text {
        None => Ok(DEFAULT_PORT),
        Some(t) => match number_reading(t) {
            None => Err("--port must be a number >= 0"@),
            Some(v) => if v > 65535 {
                Err("--port must be a number between 0 and 65535"@)
            } else {
                Ok(v as u16)
            },
        },
    }
}

pub open spec fn timeout_of(text: Option<Seq<char>>) -> Result<u64, Seq<char>> {
    match text {
        None => Ok(DEFAULT_TIMEOUT_SECONDS),
        Some(t) => match number_reading(t) {
            None => Err("--timeout must be a number >= 0"@),
            Some(v) => Ok(saturated(v)),
        },
    }
}

/// What a finished scan means: `--install-skill` refuses every other option
/// but `--skill-dir`; at most one scope flag; the numbers must read.
pub open spec fn finish(st: ScanState) -> Result<ParsedView, Seq<char>> {
    let names = scope_names(st);
    if st.install_skill {
        if st.options != default_options() || st.port is Some || st.timeout is Some || st.rest.len() > 0 || names.len() > 0 {
            Err("--install-skill takes no options but --skill-dir"@)
        } else {
            Ok(ParsedView::InstallSkill(st.skill_dir))
        }
    } else if names.len() > 1 {
        Err("pick one scope, not "@ + joined(dashed(names), " and "@))
    } else {
        match port_of(st.port) {
            Err(message) => Err(message),
            Ok(port) => match timeout_of(st.timeout) {
                Err(message) => Err(message),
                Ok(timeout) => Ok(ParsedView::Options(OptionsView {
                    scope: scope_of(st),
                    paths: st.rest,
                    port,
                    timeout_seconds: timeout,
                    ..st.options
                })),
            },
        }
    }
}

/// The meaning of a whole command line.
pub open spec fn parse_spec(args: Seq<Seq<char>>) -> Result<ParsedView, Seq<char>> {
    match scan(args, 0, start_state()) {
        ScanEnd::Help => Ok(ParsedView::Help),
        ScanEnd::Version => Ok(ParsedView::Version),
        ScanEnd::Failed(message) => Err(message),
        ScanEnd::Finished(st) => finish(st),
    }
}

/// Past a bare `--`, every argument is a pathspec taken verbatim, even one
/// that looks like a flag: `diffpane -- <paths>` reviews the branch scope
/// with exactly those pathspecs.
pub proof fn everything_after_the_separator_is_a_pathspec(rest: Seq<Seq<char>>)
    ensures
        parse_spec(seq!["--"@] + rest) == Ok::<ParsedView, Seq<char>>(ParsedView::Options(OptionsView { paths: rest, ..default_options() })),
{
    reveal_strlit("--");
    reveal_strlit("-h");
    reveal_strlit("--help");
    reveal_strlit("-v");
    reveal_strlit("--version");
    reveal_strlit("--install-skill");
    reveal_strlit("--working");
    reveal_strlit("--staged");
    reveal_strlit("--json");
    reveal_strlit("--no-open");
    reveal_strlit("--skill-dir");
    reveal_strlit("--base");
    reveal_strlit("--title");
    reveal_strlit("--review");
    reveal_strlit("--out");
    reveal_strlit("--port");
    reveal_strlit("--timeout");
    reveal_strlit("--range");
    reveal_strlit("--commit");
    let args = seq!["--"@] + rest;
    assert(args[0] == "--"@);
    assert(first_index("--"@, '=', 0) == None::<int>) by {
        assert(first_index("--"@, '=', 2) == None::<int>);
        assert(first_index("--"@, '=', 1) == None::<int>);
    }
    assert(flag_of("--"@) == ("--"@, None::<Seq<char>>));
    assert(args.skip(1) =~= rest);
    let st = ScanState { rest: Seq::<Seq<char>>::empty() + rest, ..start_state() };
    assert(Seq::<Seq<char>>::empty() + rest =~= rest);
    assert(scan(args, 0, start_state()) == ScanEnd::Finished(st));
    assert(scope_names(st) =~= Seq::<Seq<char>>::empty());
}

/// A scan in progress.
struct Scan {
    options: Options,
    working: bool,
    staged: bool,
    range: bool,
    commit: bool,
    install_skill: bool,
    skill_dir: Option<String>,
    port: Option<String>,
    timeout: Option<String>,
    rest: Vec<String>,
}

impl View for Scan {
    type V = ScanState;

    closed spec fn view(&self) -> ScanState {
        ScanState {
            options: self.options@,
            working: self.working,
            staged: self.staged,
            range: self.range,
            commit: self.commit,
            install_skill: self.install_skill,
            skill_dir: opt_text(self.skill_dir),
            port: opt_text(self.port),
            timeout: opt_text(self.timeout),
            rest: strings_view(self.rest@),
        }
    }
}

impl Scan {
    fn switch(&mut self, flag: &Vec<char>)
        requires
            is_switch(flag@),
        ensures
            final(self)@ == with_switch(old(self)@, flag@),
    {
        if spells(flag, "--install-skill") {
            self.install_skill = true;
        } else if spells(flag, "--working") {
            self.working = true;
        } else if spells(flag, "--staged") {
            self.staged = true;
        } else if spells(flag, "--json") {
            self.options.as_json = true;
        } else {
            self.options.should_open = false;
        }
    }

    fn set_value(&mut self, flag: &Vec<char>, value: String)
        requires
            takes_value(flag@),
        ensures
            final(self)@ == with_value(old(self)@, flag@, value@),
    {
        if spells(flag, "--skill-dir") {
            self.skill_dir = Some(value);
        } else if spells(flag, "--base") {
            self.options.base = Some(value);
        } else if spells(flag, "--title") {
            self.options.title = Some(value);
        } else if spells(flag, "--review") {
            self.options.review_file = Some(value);
        } else if spells(flag, "--out") {
            self.options.out_file = Some(value);
        } else if spells(flag, "--port") {
            self.port = Some(value);
        } else if spells(flag, "--timeout") {
            self.timeout = Some(value);
        } else if spells(flag, "--range") {
            self.range = true;
            self.options.range = Some(value);
        } else {
            self.commit = true;
            self.options.commit = Some(value);
        }
    }
}

fn is_switch_exec(flag: &Vec<char>) -> (r: bool)
    ensures
        r == is_switch(flag@),
{
    spells(flag, "--install-skill") || spells(flag, "--working") || spells(flag, "--staged")
        || spells(flag, "--json") || spells(flag, "--no-open")
}

fn takes_value_exec(flag: &Vec<char>) -> (r: bool)
    ensures
        r == takes_value(flag@),
{
    spells(flag, "--skill-dir") || spells(flag, "--base") || spells(flag, "--title")
        || spells(flag, "--review") || spells(flag, "--out") || spells(flag, "--port")
        || spells(flag, "--timeout") || spells(flag, "--range") || spells(flag, "--commit")
}

/// Splits `--flag=value` at its first `=`.
fn split_flag(arg: &String) -> (out: (Vec<char>, Option<String>))
    ensures
        out.0@ == flag_of(arg@).0,
        opt_text(out.1) == flag_of(arg@).1,
{
    let chars = chars_of(arg.as_str());
    let mut i: usize = 0;
    while i < chars.len() && chars[i] != '='
        invariant
            i <= chars@.len(),
            chars@ == arg@,
            first_index(arg@, '=', 0) == first_index(arg@, '=', i as int),
        decreases chars@.len() - i,
    {
        i += 1;
    }
    if i < chars.len() && i > 2 {
        let mut flag: Vec<char> = Vec::new();
        let mut value: Vec<char> = Vec::new();
        let mut k: usize = 0;
        while k < chars.len()
            invariant
                i < chars@.len(),
                k <= chars@.len(),
                flag@ == chars@.take(if k <= i { k as int } else { i as int }),
                value@ == if k <= i + 1 { Seq::<char>::empty() } else { chars@.subrange(i + 1, k as int) },
            decreases chars@.len() - k,
        {
            if k < i {
                flag.push(chars[k]);
            } else if k > i {
                value.push(chars[k]);
            }
            k += 1;
            assert(flag@ =~= chars@.take(if k <= i { k as int } else { i as int }));
            assert(value@ =~= if k <= i + 1 { Seq::<char>::empty() } else { chars@.subrange(i + 1, k as int) });
        }
        assert(value@ =~= arg@.skip(i + 1));
        if starts_with_str(&flag, "--") {
            return (flag, Some(string_of(&value)));
        }
    }
    (chars, None)
}

/// Parses the command line (without the program name).
pub fn parse(argv: Vec<String>) -> (parsed: Result<Parsed, String>)
    ensures
        match (parsed, parse_spec(strings_view(argv@))) {
            (Ok(p), Ok(v)) => p@ == v,
            (Err(message), Err(v)) => message@ == v,
            _ => false,
        },
{
    let ghost args = strings_view(argv@);
    let mut state = Scan {
        options: Options::default(),
        working: false,
        staged: false,
        range: false,
        commit: false,
        install_skill: false,
        skill_dir: None,
        port: None,
        timeout: None,
        rest: Vec::new(),
    };
    assert(strings_view(state.rest@) =~= Seq::<Seq<char>>::empty());
    assert(state@ == start_state());
    let mut i: usize = 0;
    while i < argv.len()
        invariant
            i <= argv@.len(),
            args == strings_view(argv@),
            scan(args, 0, start_state()) == scan(args, i as int, state@),
        decreases argv@.len() - i,
    {
        assert(args[i as int] == argv@[i as int]@);
        let (flag, inline) = split_flag(&argv[i]);
        if spells(&flag, "-h") || spells(&flag, "--help") {
            return Ok(Parsed::Help);
        }
        if spells(&flag, "-v") || spells(&flag, "--version") {
            return Ok(Parsed::Version);
        }
        if is_switch_exec(&flag) {
            state.switch(&flag);
            i += 1;
        } else if takes_value_exec(&flag) {
            let value = match inline {
                Some(value) => {
                    i += 1;
                    value
                },
                None => {
                    if i + 1 < argv.len() {
                        let value = argv[i + 1].clone();
                        assert(args[i + 1] == argv@[i + 1]@);
                        i += 2;
                        value
                    } else {
                        let mut message: Vec<char> = Vec::new();
                        push_chars(&mut message, &flag);
                        push_str(&mut message, " needs a value");
                        return Err(string_of(&message));
                    }
                },
            };
            state.set_value(&flag, value);
        } else if spells(&flag, "--") {
            let mut k = i + 1;
            let ghost base = state@;
            while k < argv.len()
                invariant
                    i < k <= argv@.len(),
                    args == strings_view(argv@),
                    state@ == (ScanState { rest: base.rest + args.subrange(i + 1, k as int), ..base }),
                decreases argv@.len() - k,
            {
                let ghost before = state.rest@;
                state.rest.push(argv[k].clone());
                assert(args.subrange(i + 1, k + 1) == args.subrange(i + 1, k as int).push(args[k as int]));
                assert(args[k as int] == argv@[k as int]@);
                assert(strings_view(state.rest@) =~= strings_view(before).push(argv@[k as int]@));
                k += 1;
            }
            assert(args.subrange(i + 1, argv@.len() as int) == args.skip(i + 1));
            i = argv.len();
        } else if flag.len() > 0 && flag[0] == '-' {
            let mut message: Vec<char> = Vec::new();
            push_str(&mut message, "unknown option: ");
            push_chars(&mut message, &flag);
            return Err(string_of(&message));
        } else {
            let ghost before = state.rest@;
            state.rest.push(string_of(&flag));
            assert(strings_view(state.rest@) =~= strings_view(before).push(flag@));
            i += 1;
        }
    }
    finish_exec(state)
}

fn finish_exec(state: Scan) -> (parsed: Result<Parsed, String>)
    ensures
        match (parsed, finish(state@)) {
            (Ok(p), Ok(v)) => p@ == v,
            (Err(message), Err(v)) => message@ == v,
            _ => false,
        },
{
    let ghost st = state@;
    let Scan { options, working, staged, range, commit, install_skill, skill_dir, port, timeout, rest } = state;
    let mut names: Vec<Vec<char>> = Vec::new();
    if working {
        names.push(chars_of("working"));
    }
    if staged {
        names.push(chars_of("staged"));
    }
    if range {
        names.push(chars_of("range"));
    }
    if commit {
        names.push(chars_of("commit"));
    }
    assert(views(names@) =~= scope_names(st));
    if install_skill {
        let untouched = options.scope == Scope::Branch && options.base.is_none() && options.range.is_none()
            && options.commit.is_none() && options.paths.len() == 0 && options.title.is_none()
            && options.review_file.is_none() && options.out_file.is_none() && options.port == DEFAULT_PORT
            && options.timeout_seconds == DEFAULT_TIMEOUT_SECONDS && !options.as_json && options.should_open;
        if untouched {
            assert(options@.paths =~= Seq::<Seq<char>>::empty());
        }
        assert(untouched == (st.options == default_options()));
        if !untouched || port.is_some() || timeout.is_some() || rest.len() > 0 || names.len() > 0 {
            return Err(string_of(&chars_of("--install-skill takes no options but --skill-dir")));
        }
        return Ok(Parsed::InstallSkill { skill_dir });
    }
    if names.len() > 1 {
        let mut flagged: Vec<Vec<char>> = Vec::new();
        let mut k: usize = 0;
        while k < names.len()
            invariant
                k <= names@.len(),
                views(flagged@) == dashed(views(names@)).take(k as int),
            decreases names@.len() - k,
        {
            let mut flag: Vec<char> = Vec::new();
            push_str(&mut flag, "--");
            push_chars(&mut flag, &names[k]);
            assert(flag@ == "--"@ + views(names@)[k as int]);
            let ghost prev = views(flagged@);
            let ghost fv = flag@;
            flagged.push(flag);
            assert(views(flagged@) =~= prev.push(fv));
            assert(dashed(views(names@)).take(k + 1) =~= dashed(views(names@)).take(k as int).push(fv));
            k += 1;
            assert(views(flagged@) =~= dashed(views(names@)).take(k as int));
        }
        assert(dashed(views(names@)).take(names@.len() as int) == dashed(views(names@)));
        let mut message: Vec<char> = Vec::new();
        push_str(&mut message, "pick one scope, not ");
        push_chars(&mut message, &join_lines(&flagged, " and "));
        return Err(string_of(&message));
    }
    let mut options = options;
    options.scope = if range {
        Scope::Range
    } else if commit {
        Scope::Commit
    } else if working {
        Scope::Working
    } else if staged {
        Scope::Staged
    } else {
        Scope::Branch
    };
    options.paths = rest;
    proof {
        reveal_strlit("--");
        reveal_strlit("port");
        reveal_strlit("timeout");
        reveal_strlit(" must be a number >= 0");
        reveal_strlit("--port must be a number >= 0");
        reveal_strlit("--timeout must be a number >= 0");
        assert("--"@ + "port"@ + " must be a number >= 0"@ =~= "--port must be a number >= 0"@);
        assert("--"@ + "timeout"@ + " must be a number >= 0"@ =~= "--timeout must be a number >= 0"@);
    }
    match &port {
        Some(text) => {
            let value = match positive_int(text.as_str(), "port") {
                Ok(value) => value,
                Err(message) => {
                    return Err(message);
                },
            };
            if value > 65535 {
                return Err(string_of(&chars_of("--port must be a number between 0 and 65535")));
            }
            options.port = value as u16;
        },
        None => {
            options.port = DEFAULT_PORT;
        },
    }
    match &timeout {
        Some(text) => {
            options.timeout_seconds = match positive_int(text.as_str(), "timeout") {
                Ok(value) => value,
                Err(message) => {
                    return Err(message);
                },
            };
        },
        None => {
            options.timeout_seconds = DEFAULT_TIMEOUT_SECONDS;
        },
    }
    let ghost expected = OptionsView {
        scope: scope_of(st),
        paths: st.rest,
        port: options.port,
        timeout_seconds: options.timeout_seconds,
        ..st.options
    };
    assert(options@ == expected);
    Ok(Parsed::Options(Box::new(options)))
}

} // verus!