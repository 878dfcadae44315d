//! The process that the installer runs in, real or made up for a test.
//!
//! What a real process knows comes from the operating system and is handed
//! in by the caller. A test process carries everything with it.

use vstd::prelude::*;
use rand::Rng;
use crate::text::{chars_of, copy_of};

verus! {

/// The real process: what was found out about its terminal.
#[derive(Debug, Clone)]
pub struct OsProcess {
    pub stderr_is_a_tty: bool,
    pub stdout_is_a_tty: bool,
}

/// A process made up for a test.
#[derive(Debug, Clone, Default)]
pub struct TestProcess {
    pub cwd: String,
    pub args: Vec<String>,
    pub vars: Vec<(String, String)>,
    pub id: u64,
    pub stdin: String,
    pub stdout: Vec<u8>,
    pub stderr: Vec<u8>,
}

/// The process that the installer runs in.
#[derive(Debug, Clone)]
pub enum Process {
    Os(OsProcess),
    Test(TestProcess),
}

/// The identity made of 32 high bits and 32 low bits.
pub open spec fn composed(high: u32, low: u32) -> u64 {
    (high as u64 * 0x1_0000_0000 + low as u64) as u64
}

/// The identity made of 32 high bits and 32 low bits.
pub fn compose_id(high: u32, low: u32) -> (id: u64)
    ensures
        id == composed(high, low),
{
    let wide_high: u64 = high as u64;
    let wide_low: u64 = low as u64;
    assert((wide_high << 32) | wide_low == wide_high * 0x1_0000_0000 + wide_low) by (bit_vector)
        requires
            wide_high <= 0xffff_ffff,
            wide_low <= 0xffff_ffff,
    ;
    (wide_high << 32) | wide_low
}

/// A number drawn at random, below the largest `u32`.
///
/// Trusted: calls `rand::Rng::gen_range` on `rand::thread_rng()` with the
/// range `0..u32::MAX`, which is not empty. The value lies in the range;
/// nothing else is claimed of it.
#[verifier::external_body]
fn random_high_bits() -> (high: u32)
    ensures
        high < u32::MAX,
{
    rand::thread_rng().gen_range(0..u32::MAX)
}

/// The last name in `path`, without its extension.
///
/// Trusted: calls `std::path::Path::file_stem`. What it takes for a
/// separator depends on the host, so nothing is claimed of the result.
#[verifier::external_body]
fn file_stem(path: &str) -> (stem: Option<String>) {
    let stem = std::path::Path::new(path).file_stem()?;
    Some(stem.to_string_lossy().into_owned())
}

/// The value that `vars` holds for `key`: that of the first entry with this
/// key.
pub open spec fn lookup(vars: Seq<(String, String)>, key: Seq<char>) -> Option<Seq<char>>
    decreases vars.len(),
{
    if vars.len() == 0 {
        None
    } else if vars[0].0@ == key {
        Some(vars[0].1@)
    } else {
        lookup(vars.drop_first(), key)
    }
}

impl TestProcess {
    /// A test process in the directory `cwd`, with the arguments `args`, the
    /// environment `vars` and the input `stdin`. `pid` is the identity of
    /// the real process that runs the test.
    pub fn new(cwd: &str, args: Vec<String>, vars: Vec<(String, String)>, stdin: &str, pid: u32) -> (made:
        Self)
        ensures
            made.cwd@ == cwd@,
            made.args == args,
            made.vars == vars,
            made.stdin@ == stdin@,
            made.stdout@.len() == 0,
            made.stderr@.len() == 0,
            exists|high: u32| high < u32::MAX && made.id == composed(high, pid),
    {
        TestProcess {
            cwd: copy_of(cwd),
            args,
            vars,
            id: TestProcess::new_id(pid),
            stdin: copy_of(stdin),
            stdout: Vec::new(),
            stderr: Vec::new(),
        }
    }

    /// An identity for a test process: random high bits over `pid`.
    pub fn new_id(pid: u32) -> (id: u64)
        ensures
            exists|high: u32| high < u32::MAX && id == composed(high, pid),
    {
        let high = random_high_bits();
        compose_id(high, pid)
    }

    /// What the process has written to its standard output.
    pub fn get_stdout(&self) -> (written: Vec<u8>)
        ensures
            written@ == self.stdout@,
    {
        copy_bytes(&self.stdout)
    }

    /// What the process has written to its standard error.
    pub fn get_stderr(&self) -> (written: Vec<u8>)
        ensures
            written@ == self.stderr@,
    {
        copy_bytes(&self.stderr)
    }

    /// The value of the variable `key`, if it is set.
    pub fn var(&self, key: &str) -> (value: Option<String>)
        ensures
            match value {
                Some(v) => lookup(self.vars@, key@) == Some(v@),
                None => lookup(self.vars@, key@) is None,
            },
    {
        let wanted = copy_of(key);
        let mut i: usize = 0;
        assert(self.vars@.skip(0) == self.vars@);
        while i < self.vars.len()
            invariant
                i <= self.vars.len(),
                wanted@ == key@,
                lookup(self.vars@, key@) == lookup(self.vars@.skip(i as int), key@),
            decreases self.vars.len() - i,
        {
            let ghost rest = self.vars@.skip(i as int);
            assert(rest[0] == self.vars@[i as int]);
            assert(rest.drop_first() == self.vars@.skip(i + 1));
            if self.vars[i].0 == wanted {
                return Some(copy_of(self.vars[i].1.as_str()));
            }
            i += 1;
        }
        None
    }
}

/// A copy of `bytes`.
fn copy_bytes(bytes: &Vec<u8>) -> (copy: Vec<u8>)
    ensures
        copy@ == bytes@,
{
    let mut copy: Vec<u8> = Vec::new();
    let mut i: usize = 0;
    while i < bytes.len()
        invariant
            i <= bytes.len(),
            copy@ == bytes@.take(i as int),
        decreases bytes.len() - i,
    {
        copy.push(bytes[i]);
        assert(copy@ == bytes@.take(i + 1));
        i += 1;
    }
    assert(bytes@.take(bytes.len() as int) == bytes@);
    copy
}

impl Process {
    /// The real process, with what was found out about its terminal.
    pub fn os(stderr_is_a_tty: bool, stdout_is_a_tty: bool) -> (process: Self)
        ensures
            process == Process::Os(OsProcess { stderr_is_a_tty, stdout_is_a_tty }),
    {
        Process::Os(OsProcess { stderr_is_a_tty, stdout_is_a_tty })
    }

    /// The value of the variable `key`. For the real process this is
    /// `ambient`, what the operating system holds for `key`; a test process
    /// looks into its own variables.
    pub fn var(&self, key: &str, ambient: Option<String>) -> (value: Option<String>)
        ensures
            match self {
                Process::Os(_) => value == ambient,
                Process::Test(p) => match value {
                    Some(v) => lookup(p.vars@, key@) == Some(v@),
                    None => lookup(p.vars@, key@) is None,
                },
            },
    {
        match self {
            Process::Os(_) => ambient,
            Process::Test(p) => p.var(key),
        }
    }

    /// The path under which the process was started: the one that is
    /// forced, or else the first argument.
    pub fn arg0(&self, forced: Option<String>, ambient: &Vec<String>) -> (arg0: Option<String>)
        ensures
            match forced {
                Some(f) => arg0 == Some(f),
                None => {
                    let args = match self {
                        Process::Os(_) => ambient@,
                        Process::Test(p) => p.args@,
                    };
                    match arg0 {
                        Some(first) => args.len() > 0 && first@ == args[0]@,
                        None => args.len() == 0,
                    }
                },
            },
    {
        match forced {
            Some(forced) => Some(forced),
            None => {
                let args = match self {
                    Process::Os(_) => ambient,
                    Process::Test(p) => &p.args,
                };
                if args.len() > 0 {
                    Some(copy_of(args[0].as_str()))
                } else {
                    None
                }
            },
        }
    }

    /// The name under which the process was started: the last name of its
    /// path, without extension. `forced` is the name that the environment
    /// forces, `ambient` the arguments that the operating system handed over.
    pub fn name(&self, forced: Option<String>, ambient: &Vec<String>) -> (name: Option<String>)
        ensures
            forced is None && (match self {
                Process::Os(_) => ambient@,
                Process::Test(p) => p.args@,
            }).len() == 0 ==> name is None,
    {
        match self.arg0(forced, ambient) {
            Some(path) => file_stem(path.as_str()),
            None => None,
        }
    }

    /// Whether standard error is a terminal. A test process has none.
    pub fn stderr_is_a_tty(&self) -> (b: bool)
        ensures
            b == match self {
                Process::Os(p) => p.stderr_is_a_tty,
                Process::Test(_) => false,
            },
    {
        match self {
            Process::Os(p) => p.stderr_is_a_tty,
            Process::Test(_) => false,
        }
    }

    /// Whether standard output is a terminal. A test process has none.
    pub fn stdout_is_a_tty(&self) -> (b: bool)
        ensures
            b == match self {
                Process::Os(p) => p.stdout_is_a_tty,
                Process::Test(_) => false,
            },
    {
        match self {
            Process::Os(p) => p.stdout_is_a_tty,
            Process::Test(_) => false,
        }
    }
}


/// `text` begins with `start`.
pub open spec fn begins(text: Seq<char>, start: Seq<char>) -> bool {
    start.len() <= text.len() && text.take(start.len() as int) == start
}

/// Whether `text` begins with `start`.
pub fn starts_with(text: &str, start: &str) -> (b: bool)
    ensures
        b == begins(text@, start@),
{
    let whole = chars_of(text);
    let head = chars_of(start);
    if head.len() > whole.len() {
        return false;
    }
    let mut i: usize = 0;
    while i < head.len()
        invariant
            i <= head.len(),
            head.len() <= whole.len(),
            whole@ == text@,
            head@ == start@,
            whole@.take(i as int) == head@.take(i as int),
        decreases head.len() - i,
    {
        if whole[i] != head[i] {
            assert(whole@.take(head.len() as int)[i as int] != head@[i as int]);
            return false;
        }
        assert(whole@.take(i + 1) == whole@.take(i as int).push(whole@[i as int]));
        assert(head@.take(i + 1) == head@.take(i as int).push(head@[i as int]));
        i += 1;
    }
    assert(head@.take(head.len() as int) == head@);
    true
}

/// What the program is asked to be, as the contracts see it.
pub enum PersonalityView {
    Rustup,
    Setup,
    Cleanup,
    Proxy(Seq<char>),
    Unnamed,
}

/// What the program is asked to be, by the name it was started under.
#[derive(Debug, Clone, PartialEq, Eq)]
pub enum Personality {
    /// The toolchain manager itself.
    Rustup,
    /// The installer.
    Setup,
    /// The last stage of removing the manager itself.
    Cleanup,
    /// A stand-in for the tool of this name.
    Proxy(String),
    /// The program has no name to go by.
    Unnamed,
}

impl View for Personality {
    type V = PersonalityView;

    open spec fn view(&self) -> PersonalityView {
        match self {
            Personality::Rustup => PersonalityView::Rustup,
            Personality::Setup => PersonalityView::Setup,
            Personality::Cleanup => PersonalityView::Cleanup,
            Personality::Proxy(name) => PersonalityView::Proxy(name@),
            Personality::Unnamed => PersonalityView::Unnamed,
        }
    }
}

/// The personality for a name: the manager under its own name, the
/// installer under any name that begins like the installer's, the cleanup
/// under its prefix, and a proxy under every other name.
pub open spec fn personality_of(name: Option<Seq<char>>) -> PersonalityView {
    match name {
        None => PersonalityView::Unnamed,
        Some(n) => if n == "rustup"@ {
            PersonalityView::Rustup
        } else if begins(n, "rustup-setup"@) || begins(n, "rustup-init"@) {
            PersonalityView::Setup
        } else if begins(n, "rustup-gc-"@) {
            PersonalityView::Cleanup
        } else {
            PersonalityView::Proxy(n)
        },
    }
}

/// The personality for the name that the program was started under.
pub fn personality(name: Option<&str>) -> (chosen: Personality)
    ensures
        chosen@ == personality_of(
            match name {
                Some(n) => Some(n@),
                None => None,
            },
        ),
{
    match name {
        None => Personality::Unnamed,
        Some(n) => {
            let owned = copy_of(n);
            if owned == copy_of("rustup") {
                Personality::Rustup
            } else if starts_with(n, "rustup-setup") || starts_with(n, "rustup-init") {
                Personality::Setup
            } else if starts_with(n, "rustup-gc-") {
                Personality::Cleanup
            } else {
                Personality::Proxy(owned)
            }
        },
    }
}

/// How deep proxies may call one another before it counts as a loop.
pub const RECURSION_MAX: u32 = 20;

/// The number that a decimal digit stands for; `None` for other characters.
pub open spec fn digit_of(c: char) -> Option<int> {
    if '0' <= c && c <= '9' {
        Some(c as u32 as int - '0' as u32 as int)
    } else {
        None
    }
}

/// Every character is a decimal digit.
pub open spec fn all_digits(text: Seq<char>) -> bool {
    forall|i: int| 0 <= i < text.len() ==> (#[trigger] digit_of(text[i])) is Some
}

/// The number that decimal digits stand for.
pub open spec fn decimal(text: Seq<char>) -> int
    decreases text.len(),
{
    if text.len() == 0 {
        0
    } else {
        decimal(text.drop_last()) * 10 + digit_of(text.last())->0
    }
}

/// The count that a text stands for: decimal digits, with a `+` before them
/// or not, that fit in 32 bits. Anything else counts as 0.
pub open spec fn count_of(text: Seq<char>) -> int {
    let digits = if text.len() > 0 && text[0] == '+' {
        text.drop_first()
    } else {
        text
    };
    if digits.len() > 0 && all_digits(digits) && decimal(digits) <= u32::MAX {
        decimal(digits)
    } else {
        0
    }
}

/// More digits never make a number smaller.
pub proof fn lemma_decimal_grows(text: Seq<char>, n: int)
    requires
        0 <= n <= text.len(),
        all_digits(text),
    ensures
        0 <= decimal(text.take(n)) <= decimal(text),
    decreases text.len() - n,
{
    if n == text.len() {
        assert(text.take(n) == text);
        lemma_decimal_nonnegative(text);
    } else {
        lemma_decimal_grows(text, n + 1);
        let longer = text.take(n + 1);
        assert(longer.drop_last() == text.take(n));
        assert(longer.last() == text[n]);
        assert(digit_of(text[n]) is Some);
        assert(all_digits(text.take(n))) by {
            assert forall|i: int| 0 <= i < text.take(n).len() implies (#[trigger] digit_of(
                text.take(n)[i],
            )) is Some by {
                assert(text.take(n)[i] == text[i]);
            }
        }
        lemma_decimal_nonnegative(text.take(n));
    }
}

/// Digits stand for a number that is not negative.
pub proof fn lemma_decimal_nonnegative(text: Seq<char>)
    requires
        all_digits(text),
    ensures
        0 <= decimal(text),
    decreases text.len(),
{
    if text.len() > 0 {
        let front = text.drop_last();
        assert forall|i: int| 0 <= i < front.len() implies (#[trigger] digit_of(front[i])) is Some by {
            assert(front[i] == text[i]);
        }
        lemma_decimal_nonnegative(front);
        assert(digit_of(text[text.len() - 1]) is Some);
    }
}

/// The count that `text` stands for.
pub fn recursion_count(text: &str) -> (count: u32)
    ensures
        count == count_of(text@),
{
    let chars = chars_of(text);
    let start: usize = if chars.len() > 0 && chars[0] == '+' {
        1
    } else {
        0
    };
    let ghost digits = chars@.skip(start as int);
    assert(digits == if text@.len() > 0 && text@[0] == '+' {
        text@.drop_first()
    } else {
        text@
    });
    if start == chars.len() {
        return 0;
    }
    let mut value: u64 = 0;
    let mut i: usize = start;
    assert(digits.take(0) == Seq::<char>::empty());
    while i < chars.len()
        invariant
            start <= i <= chars.len(),
            start < chars.len(),
            digits == chars@.skip(start as int),
            digits == if text@.len() > 0 && text@[0] == '+' {
                text@.drop_first()
            } else {
                text@
            },
            forall|k: int| 0 <= k < i - start ==> (#[trigger] digit_of(digits[k])) is Some,
            value == decimal(digits.take(i - start)),
            value <= u32::MAX,
        decreases chars.len() - i,
    {
        let c = chars[i];
        assert(digits[i - start] == c);
        if !('0' <= c && c <= '9') {
            assert(digit_of(digits[i - start]) is None);
            return 0;
        }
        let digit: u64 = (c as u32 - '0' as u32) as u64;
        proof {
            let longer = digits.take(i - start + 1);
            assert(longer.drop_last() == digits.take(i - start));
            assert(longer.last() == c);
        }
        value = value * 10 + digit;
        assert(value == decimal(digits.take(i - start + 1)));
        if value > 0xffff_ffff {
            proof {
                if all_digits(digits) {
                    lemma_decimal_grows(digits, i - start + 1);
                }
            }
            return 0;
        }
        i += 1;
    }
    assert(digits.take(digits.len() as int) == digits);
    value as u32
}

/// Whether the recursion count that the environment holds is over the
/// limit. A count that is not set is 0.
pub fn recursion_exceeded(value: Option<&str>) -> (over: bool)
    ensures
        over == match value {
            Some(text) => count_of(text@) > RECURSION_MAX,
            None => false,
        },
{
    match value {
        Some(text) => recursion_count(text) > RECURSION_MAX,
        None => false,
    }
}

} // verus!
